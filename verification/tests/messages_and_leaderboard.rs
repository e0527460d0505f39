use ji_chan::leaderboard::{
    count_submissions, get_avatar, is_top_ready, leaderboard_html, leaderboard_ids, rank_submitters, LeaderboardUser,
};
use ji_chan::messages::{challenge_announcement, challenge_message, help_message, unrecognised_command_reply};
use ji_chan::submissions::Submission;

fn s(t: &str) -> String {
    t.to_string()
}

fn sub(id: &str) -> Submission {
    Submission { id: s(id), images: vec![], others: vec![] }
}

#[test]
fn help_uses_the_prefix() {
    let m = help_message("-h ");
    assert!(m.starts_with("<:jichan:943336845637480478> Hello! I'm 字【じ】ちゃん (Ji-chan)"));
    assert!(m.contains(":ballot_box: `-h submit` Submit to the latest handwriting challenge.\n"));
    assert!(m.ends_with(":game_die: `-h hyogai <group|all>` Random Hyōgai kanji"));
    assert_eq!(m.matches("-h ").count(), 13);
}

#[test]
fn unknown_command_reply() {
    assert_eq!(
        unrecognised_command_reply("foo", "!"),
        "I don't understand the command 'foo'. For a list of commands, see `!help`. Commands are case-sensitive."
    );
}

#[test]
fn challenge_reply() {
    assert_eq!(challenge_message(87), "Tegaki Tuesday #87: https://tegakituesday.com/87");
}

#[test]
fn announcement_suffixes_follow_the_last_digit() {
    let start = |n: i32| challenge_announcement(n, "-h ").split("** weekly").next().unwrap().to_string();
    assert_eq!(start(1), "Welcome to the **1ˢᵗ");
    assert_eq!(start(22), "Welcome to the **22ⁿᵈ");
    assert_eq!(start(3), "Welcome to the **3ʳᵈ");
    assert_eq!(start(4), "Welcome to the **4ᵗʰ");
    assert_eq!(start(11), "Welcome to the **11ˢᵗ");
    assert_eq!(start(10), "Welcome to the **10ᵗʰ");
    assert_eq!(start(-1), "Welcome to the **-1ᵗʰ");
    let m = challenge_announcement(5, "-h ");
    assert!(m.contains("<https://tegakituesday.com/5>.\n\nYou can make submissions"));
    assert!(m.contains("along with the `-h submit` command."));
    assert!(m.ends_with("(<https://creativecommons.org/licenses/by-sa/4.0>)."));
}

#[test]
fn counting_over_challenges() {
    let challenges = vec![vec![sub("1"), sub("2")], vec![sub("2")], vec![], vec![sub("3"), sub("2"), sub("1")]];
    assert_eq!(count_submissions(&challenges), Some(vec![(s("1"), 2), (s("2"), 3), (s("3"), 1)]));
    assert_eq!(count_submissions(&vec![]), Some(vec![]));
}

#[test]
fn ranking_is_descending_and_stable() {
    let counts = vec![(s("a"), 1), (s("b"), 3), (s("c"), 1), (s("d"), 3), (s("e"), 2)];
    assert_eq!(rank_submitters(counts), vec![(s("b"), 3), (s("d"), 3), (s("e"), 2), (s("a"), 1), (s("c"), 1)]);
    assert_eq!(rank_submitters(vec![]), vec![]);
}

#[test]
fn top_needs_five_numeric_ids() {
    let ranked: Vec<(String, u32)> = (1..=6).map(|i| (i.to_string(), 7 - i as u32)).collect();
    assert!(is_top_ready(&ranked));
    assert_eq!(leaderboard_ids(&ranked), vec![1, 2, 3, 4, 5]);
    assert!(!is_top_ready(&ranked[..4].to_vec()));
    let mut bad = ranked.clone();
    bad[2].0 = s("x");
    assert!(!is_top_ready(&bad));
    bad[2].0 = s("9");
    bad[5].0 = s("x");
    assert!(is_top_ready(&bad));
}

#[test]
fn leaderboard_table() {
    let ranked: Vec<(String, u32)> = (1..=5).map(|i| (i.to_string(), 10 - i as u32)).collect();
    let users: Vec<LeaderboardUser> = (1..=5)
        .map(|i| LeaderboardUser { avatar: format!("a{}", i), name: format!("n{}", i), discriminator: 1000 + i })
        .collect();
    let html = leaderboard_html(&ranked, &users);
    assert!(html.starts_with("<table id=\"leaderboard\"><tr><td>1</td><td><img src=\"a1\" alt=\"avatar\"></td><td><a href=\"https://discord.com/users/1\" target=\"_blank\">n1<span class=\"muted\">#1001</span></a></td><td>9</td></tr>"));
    assert!(html.ends_with("<td>5</td></tr></table>"));
    assert_eq!(html.matches("<tr>").count(), 5);
}

#[test]
fn avatar_choice() {
    assert_eq!(get_avatar(Some(s("mine")), s("default")), "mine");
    assert_eq!(get_avatar(None, s("default")), "default");
}

#[test]
fn counts_add_up_to_the_submissions() {
    let challenges = vec![vec![sub("7"), sub("8")], vec![sub("8"), sub("9")], vec![sub("7")]];
    let counts = count_submissions(&challenges).unwrap();
    let total: u32 = counts.iter().map(|(_, n)| *n).sum();
    assert_eq!(total, 5);
    let ranked = rank_submitters(counts.clone());
    assert_eq!(ranked.len(), counts.len());
    for entry in counts.iter() {
        assert_eq!(ranked.iter().filter(|e| *e == entry).count(), 1);
    }
}
