//! The texts of the bot's answers and announcements.
use vstd::prelude::*;
use crate::text::{int_text, push_int, push_str, to_string};

verus! {

/// The help text, with the command prefix in front of each command.
pub open spec fn help_text(prefix: Seq<char>) -> Seq<char> {
    "<:jichan:943336845637480478> Hello! I'm 字【じ】ちゃん (Ji-chan), the Tegaki Tuesday bot (and mascot!).\nFor more information about the challenge, check out the website at <https://tegakituesday.com>\n\n__**Tegaki Tuesday 手書きの火曜日**__\n:ballot_box: `"@
        + prefix + "submit` Submit to the latest handwriting challenge.\n:pencil: `"@
        + prefix + "challenge` View the latest handwriting challenge info.\n:frame_photo: `"@
        + prefix + "images` List images in your current submission, if available.\n:wastebasket: `"@
        + prefix + "imageDelete <image number>` Delete images from your current submission using image numbers from -h images.\n:bulb: `"@
        + prefix + "suggest <suggestion>` Make a suggestion for future challenge prompts!\n\n__**Kanji 漢字**__\n:information_source: `"@
        + prefix + "i <text>` Get category information and links to Jisho for character(s), along with with stroke a order diagram for single characters.\n:paintbrush: `"@
        + prefix + "so <text>` Get stroke order diagrams for character(s), maximum 4\n:game_die: `"@
        + prefix + "jinmeiyo` Random Jinmeiyō kanji\n:game_die: `"@
        + prefix + "joyo` Random Jōyō kanji\n:game_die: `"@
        + prefix + "kyoiku <grade|all>` Random Kyōiku kanji\n:game_die: `"@
        + prefix + "jlpt <level|all>` Random JLPT kanji\n:game_die: `"@
        + prefix + "hyogai <group|all>` Random Hyōgai kanji"@
}

/// The help text for the command prefix `prefix`.
pub fn help_message(prefix: &str) -> (message: String)
    ensures
        message@ == help_text(prefix@),
{
    let mut message = String::new();
    push_str(&mut message, "<:jichan:943336845637480478> Hello! I'm 字【じ】ちゃん (Ji-chan), the Tegaki Tuesday bot (and mascot!).\nFor more information about the challenge, check out the website at <https://tegakituesday.com>\n\n__**Tegaki Tuesday 手書きの火曜日**__\n:ballot_box: `");
    push_str(&mut message, prefix);
    push_str(&mut message, "submit` Submit to the latest handwriting challenge.\n:pencil: `");
    push_str(&mut message, prefix);
    push_str(&mut message, "challenge` View the latest handwriting challenge info.\n:frame_photo: `");
    push_str(&mut message, prefix);
    push_str(&mut message, "images` List images in your current submission, if available.\n:wastebasket: `");
    push_str(&mut message, prefix);
    push_str(&mut message, "imageDelete <image number>` Delete images from your current submission using image numbers from -h images.\n:bulb: `");
    push_str(&mut message, prefix);
    push_str(&mut message, "suggest <suggestion>` Make a suggestion for future challenge prompts!\n\n__**Kanji 漢字**__\n:information_source: `");
    push_str(&mut message, prefix);
    push_str(&mut message, "i <text>` Get category information and links to Jisho for character(s), along with with stroke a order diagram for single characters.\n:paintbrush: `");
    push_str(&mut message, prefix);
    push_str(&mut message, "so <text>` Get stroke order diagrams for character(s), maximum 4\n:game_die: `");
    push_str(&mut message, prefix);
    push_str(&mut message, "jinmeiyo` Random Jinmeiyō kanji\n:game_die: `");
    push_str(&mut message, prefix);
    push_str(&mut message, "joyo` Random Jōyō kanji\n:game_die: `");
    push_str(&mut message, prefix);
    push_str(&mut message, "kyoiku <grade|all>` Random Kyōiku kanji\n:game_die: `");
    push_str(&mut message, prefix);
    push_str(&mut message, "jlpt <level|all>` Random JLPT kanji\n:game_die: `");
    push_str(&mut message, prefix);
    push_str(&mut message, "hyogai <group|all>` Random Hyōgai kanji");
    assert(message@ =~= help_text(prefix@));
    message
}

/// The answer to a command the bot does not know.
pub fn unrecognised_command_reply(unrecognised_command_name: &str, prefix: &str) -> (message: String)
    ensures
        message@ == "I don't understand the command '"@ + unrecognised_command_name@
            + "'. For a list of commands, see `"@ + prefix@ + "help`. Commands are case-sensitive."@,
{
    let mut message = to_string("I don't understand the command '");
    push_str(&mut message, unrecognised_command_name);
    push_str(&mut message, "'. For a list of commands, see `");
    push_str(&mut message, prefix);
    push_str(&mut message, "help`. Commands are case-sensitive.");
    message
}

/// The answer to the challenge command: the current challenge and its page.
pub fn challenge_message(challenge_number: i32) -> (message: String)
    ensures
        message@ == "Tegaki Tuesday #"@ + int_text(challenge_number as int) + ": https://tegakituesday.com/"@
            + int_text(challenge_number as int),
{
    let mut message = to_string("Tegaki Tuesday #");
    push_int(&mut message, challenge_number as i64);
    push_str(&mut message, ": https://tegakituesday.com/");
    push_int(&mut message, challenge_number as i64);
    message
}

/// The last decimal digit of a number, negative for a negative number, as
/// Rust's `%` gives it.
pub open spec fn last_digit(n: i32) -> int {
    if n >= 0 {
        (n as int) % 10
    } else {
        -((-(n as int)) % 10)
    }
}

/// The ordinal suffix of a number, in superscript, by its last digit alone.
pub open spec fn ordinal_suffix(n: i32) -> Seq<char> {
    if last_digit(n) == 1 {
        "ˢᵗ"@
    } else if last_digit(n) == 2 {
        "ⁿᵈ"@
    } else if last_digit(n) == 3 {
        "ʳᵈ"@
    } else {
        "ᵗʰ"@
    }
}

/// The announcement of a new challenge.
pub open spec fn challenge_announcement_text(challenge_number: i32, prefix: Seq<char>) -> Seq<char> {
    "Welcome to the **"@
        + int_text(challenge_number as int)
        + ""@
        + ordinal_suffix(challenge_number)
        + "** weekly **Tegaki Tuesday** (手書きの火曜日) handwriting challenge! :pen_fountain: The prompt is available in both Japanese and English on the website at <https://tegakituesday.com/"@
        + int_text(challenge_number as int)
        + ">.\n\nYou can make submissions in both languages, but please submit in your target language first. Submissions can be submitted by uploading the image to this channel along with the `"@
        + prefix
        + "submit` command. By submitting, you agree to having your work posted to the website under the Attribution-ShareAlike 4.0 Unported (CC BY-SA 4.0) license, attributed to your Discord account. (<https://creativecommons.org/licenses/by-sa/4.0>)."@
}

/// The announcement of the challenge `challenge_number`, for the command prefix `prefix`.
pub fn challenge_announcement(challenge_number: i32, prefix: &str) -> (message: String)
    ensures
        message@ == challenge_announcement_text(challenge_number, prefix@),
{
    let digit: i64 = if challenge_number >= 0 {
        challenge_number as i64 % 10
    } else {
        -((-(challenge_number as i64)) % 10)
    };
    let suffix = if digit == 1 {
        "ˢᵗ"
    } else if digit == 2 {
        "ⁿᵈ"
    } else if digit == 3 {
        "ʳᵈ"
    } else {
        "ᵗʰ"
    };
    assert(suffix@ == ordinal_suffix(challenge_number));
    let mut message = String::new();
    push_str(&mut message, "Welcome to the **");
    push_int(&mut message, challenge_number as i64);
    push_str(&mut message, "");
    push_str(&mut message, suffix);
    push_str(&mut message, "** weekly **Tegaki Tuesday** (手書きの火曜日) handwriting challenge! :pen_fountain: The prompt is available in both Japanese and English on the website at <https://tegakituesday.com/");
    push_int(&mut message, challenge_number as i64);
    push_str(&mut message, ">.\n\nYou can make submissions in both languages, but please submit in your target language first. Submissions can be submitted by uploading the image to this channel along with the `");
    push_str(&mut message, prefix);
    push_str(&mut message, "submit` command. By submitting, you agree to having your work posted to the website under the Attribution-ShareAlike 4.0 Unported (CC BY-SA 4.0) license, attributed to your Discord account. (<https://creativecommons.org/licenses/by-sa/4.0>).");
    assert(message@ =~= challenge_announcement_text(challenge_number, prefix@));
    message
}

} // verus!
