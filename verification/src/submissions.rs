//! Challenge submissions: where they are kept, and what a new submission changes.
use vstd::prelude::*;
use crate::json::{JsonValue, JsonView};
use crate::parse::parsed_i32;
use crate::text::{
    first_index, int_text, keyed_view, lemma_first_index_absent, lemma_first_index_found, nat_text, push_int,
    push_nat, push_str, to_string, u64_text,
};

verus! {

/// One participant's entry in a challenge: the Discord user id as text, the
/// images (their file names, as the bot writes them), and every other key of
/// the entry with its value, in order (such as the name shown with it).
pub struct Submission {
    pub id: String,
    pub images: Vec<JsonValue>,
    pub others: Vec<(String, JsonValue)>,
}

pub struct SubmissionView {
    pub id: Seq<char>,
    pub images: Seq<JsonView>,
    pub others: Seq<(Seq<char>, JsonView)>,
}

impl View for Submission {
    type V = SubmissionView;

    open spec fn view(&self) -> SubmissionView {
        SubmissionView {
            id: self.id@,
            images: self.images@.map_values(|v: JsonValue| v@),
            others: keyed_view(self.others@),
        }
    }
}

pub open spec fn submissions_view(data: Seq<Submission>) -> Seq<SubmissionView> {
    data.map_values(|s: Submission| s@)
}

pub open spec fn submission_ids(data: Seq<SubmissionView>) -> Seq<Seq<char>> {
    data.map_values(|s: SubmissionView| s.id)
}

/// The author of a message: Discord user id, name and discriminator.
pub struct Author {
    pub id: u64,
    pub name: String,
    pub discriminator: u16,
}

/// The largest challenge number among the names of the challenge pages (their
/// file names without extension), or 0 when there are none. `None` when a name
/// is not a number, where reading the directory would fail.
pub open spec fn latest_challenge(stems: Seq<Seq<char>>) -> Option<i32>
    decreases stems.len(),
{
    if stems.len() == 0 {
        Some(0)
    } else {
        match (latest_challenge(stems.drop_last()), parsed_i32(stems.last())) {
            (Some(m), Some(n)) => Some(if n > m { n } else { m }),
            _ => None,
        }
    }
}

/// The number of the current challenge, from the names of the challenge pages.
pub fn get_challenge_number(stems: &Vec<String>) -> (r: Option<i32>)
    ensures
        r == latest_challenge(stems@.map_values(|s: String| s@)),
{
    let ghost views = stems@.map_values(|s: String| s@);
    let mut max: i32 = 0;
    for i in 0..stems.len()
        invariant
            views == stems@.map_values(|s: String| s@),
            latest_challenge(views.take(i as int)) == Some(max),
    {
        assert(views.take(i + 1).drop_last() =~= views.take(i as int));
        assert(views.take(i + 1).last() == stems@[i as int]@);
        match crate::parse::parse_i32(stems[i].as_str()) {
            Some(number) => {
                if number > max {
                    max = number;
                }
            },
            None => {
                proof {
                    lemma_latest_none_stays(views, i + 1);
                }
                return None;
            },
        }
    }
    assert(views.take(stems.len() as int) =~= views);
    Some(max)
}

proof fn lemma_latest_none_stays(stems: Seq<Seq<char>>, i: int)
    requires
        0 <= i <= stems.len(),
        latest_challenge(stems.take(i)) is None,
    ensures
        latest_challenge(stems) is None,
    decreases stems.len() - i,
{
    if i < stems.len() {
        assert(stems.take(i + 1).drop_last() =~= stems.take(i));
        lemma_latest_none_stays(stems, i + 1);
    } else {
        assert(stems.take(i) =~= stems);
    }
}

/// The directory of the images of a challenge's submissions.
pub open spec fn images_dir(hugo_path: Seq<char>, challenge: i32) -> Seq<char> {
    hugo_path + "/assets/"@ + int_text(challenge as int)
}

/// The file that lists a challenge's submissions.
pub open spec fn data_path(hugo_path: Seq<char>, challenge: i32) -> Seq<char> {
    hugo_path + "/data/challenges/"@ + int_text(challenge as int) + ".json"@
}

/// The directory of the images of a challenge's submissions, under the site at `hugo_path`.
pub fn get_submission_images_dir(hugo_path: &str, challenge: i32) -> (r: String)
    ensures
        r@ == images_dir(hugo_path@, challenge),
{
    let mut r = to_string(hugo_path);
    push_str(&mut r, "/assets/");
    push_int(&mut r, challenge as i64);
    assert(r@ =~= images_dir(hugo_path@, challenge));
    r
}

/// The file that lists a challenge's submissions, under the site at `hugo_path`.
pub fn get_submission_data_path(hugo_path: &str, challenge: i32) -> (r: String)
    ensures
        r@ == data_path(hugo_path@, challenge),
{
    let mut r = to_string(hugo_path);
    push_str(&mut r, "/data/challenges/");
    push_int(&mut r, challenge as i64);
    push_str(&mut r, ".json");
    assert(r@ =~= data_path(hugo_path@, challenge));
    r
}

/// Whether a submission is the one of the user with this id.
pub fn is_matching_submission(submission: &Submission, author_id: u64) -> (r: bool)
    ensures
        r == (submission@.id == nat_text(author_id as nat)),
{
    submission.id == u64_text(author_id)
}

/// The answer when a submission comes without any attachment.
pub fn missing_attachments_reply(attachment_count: usize) -> (r: Option<String>)
    ensures
        attachment_count == 0 <==> r is Some,
        r matches Some(m) ==> m@ == "Please attach at least one image."@,
{
    if attachment_count == 0 {
        Some(to_string("Please attach at least one image."))
    } else {
        None
    }
}


/// The URL-safe form of a name, as `slugify::slugify` gives it with no stop
/// words, `-` between words and no length limit.
pub uninterp spec fn slug(name: Seq<char>) -> Seq<char>;

/// The lower-case form of an ASCII letter; every other character stays.
pub open spec fn ascii_lower(c: char) -> char {
    if 'A' <= c && c <= 'Z' {
        ((c as u32) + 32) as char
    } else {
        c
    }
}

/// Every character is an ASCII letter or digit.
pub open spec fn ascii_alphanumeric(s: Seq<char>) -> bool {
    forall|i: int| 0 <= i < s.len() ==> {
        let c = #[trigger] s[i];
        ('a' <= c && c <= 'z') || ('A' <= c && c <= 'Z') || ('0' <= c && c <= '9')
    }
}

/// Calls `slugify::slugify(name, "", "-", None)`, what the crate's `slugify!`
/// macro does with a name alone: the name transliterated to ASCII, lower-cased,
/// with runs of other characters turned into single dashes. The result is
/// named `slug` and depends on the name alone. Its source keeps ASCII letters
/// and digits (lower-casing the letters) and adds a dash only for another
/// character, so a name of ASCII letters and digits alone comes back
/// lower-cased and otherwise unchanged; nothing more is stated of other names.
#[verifier::external_body]
fn slugify_name(name: &str) -> (r: String)
    ensures
        r@ == slug(name@),
        ascii_alphanumeric(name@) ==> r@ == name@.map_values(|c: char| ascii_lower(c)),
{
    slugify::slugify(name, "", "-", None)
}

/// The file extension kept for an attachment of this content type: only PNG
/// and JPEG images are taken.
pub open spec fn extension_of(content_type: Option<Seq<char>>) -> Option<Seq<char>> {
    match content_type {
        Some(t) => if t == "image/png"@ {
            Some("png"@)
        } else if t == "image/jpeg"@ {
            Some("jpg"@)
        } else {
            None
        },
        None => None,
    }
}

/// The attachments that are taken, in order: their positions and extensions.
pub open spec fn accepted(types: Seq<Option<Seq<char>>>) -> Seq<(int, Seq<char>)>
    decreases types.len(),
{
    if types.len() == 0 {
        Seq::empty()
    } else {
        let prev = accepted(types.drop_last());
        match extension_of(types.last()) {
            Some(e) => prev.push((types.len() - 1, e)),
            None => prev,
        }
    }
}

pub open spec fn types_view(types: Seq<Option<String>>) -> Seq<Option<Seq<char>>> {
    types.map_values(|t: Option<String>| match t {
        Some(s) => Some(s@),
        None => None,
    })
}

/// The name of an image added to an existing submission: the submission's
/// place (from 1), the author's slug and discriminator, and the image's number
/// among the submission's images (from 1).
pub open spec fn added_file_name(place: nat, slug: Seq<char>, discriminator: u16, number: nat, ext: Seq<char>) -> Seq<char> {
    nat_text(place) + "-"@ + slug + "-"@ + nat_text(discriminator as nat) + "-"@ + nat_text(number)
        + "."@ + ext
}

/// The name of an image of a new submission: its first image carries no number,
/// the next ones their number from 2.
pub open spec fn first_file_name(place: nat, slug: Seq<char>, discriminator: u16, index: nat, ext: Seq<char>) -> Seq<char> {
    nat_text(place) + "-"@ + slug + "-"@ + nat_text(discriminator as nat) + (if index == 0 {
        ""@
    } else {
        "-"@ + nat_text(index + 1)
    }) + "."@ + ext
}

/// The name of the image taken from the `j`-th accepted attachment.
pub open spec fn planned_name(data: Seq<SubmissionView>, author: AuthorView, j: int, ext: Seq<char>) -> Seq<char> {
    match first_index(submission_ids(data), nat_text(author.id as nat)) {
        Some(i) => added_file_name((i + 1) as nat, slug(author.name), author.discriminator, (data[i].images.len() + j + 1) as nat, ext),
        None => first_file_name((data.len() + 1) as nat, slug(author.name), author.discriminator, j as nat, ext),
    }
}

/// The names of the images taken from the attachments.
pub open spec fn planned_names(data: Seq<SubmissionView>, author: AuthorView, acc: Seq<(int, Seq<char>)>) -> Seq<Seq<char>> {
    Seq::new(acc.len(), |j: int| planned_name(data, author, j, acc[j].1))
}

pub struct AuthorView {
    pub id: u64,
    pub name: Seq<char>,
    pub discriminator: u16,
}

impl View for Author {
    type V = AuthorView;

    open spec fn view(&self) -> AuthorView {
        AuthorView { id: self.id, name: self.name@, discriminator: self.discriminator }
    }
}

/// File names as JSON strings.
pub open spec fn texts(names: Seq<Seq<char>>) -> Seq<JsonView> {
    names.map_values(|n: Seq<char>| JsonView::Text(n))
}

/// The submissions after the new images are added: to the author's
/// submission where there is one, which keeps its other keys, else as a new
/// submission at the end, whose only other key is the author's name and
/// discriminator under `username`.
pub open spec fn updated_submissions(data: Seq<SubmissionView>, author: AuthorView, names: Seq<Seq<char>>) -> Seq<SubmissionView> {
    match first_index(submission_ids(data), nat_text(author.id as nat)) {
        Some(i) => data.update(i, SubmissionView { images: data[i].images + texts(names), ..data[i] }),
        None => data.push(
            SubmissionView {
                id: nat_text(author.id as nat),
                images: texts(names),
                others: seq![("username"@, JsonView::Text(author.name + "#"@ + nat_text(author.discriminator as nat)))],
            },
        ),
    }
}

/// The answer to a submission.
pub open spec fn submission_reply(taken: nat, attached: nat, challenge: i32) -> Seq<char> {
    if taken > 0 {
        "Thank you for submitting! You can view your submission at <https://tegakituesday.com/"@
            + int_text(challenge as int) + ">"@ + (if taken < attached {
            "\nSome of your attachments could not be uploaded; only **.png**, **.jpg**, and **.jpeg** files are permitted."@
        } else {
            Seq::empty()
        })
    } else if taken < attached {
        "Sorry, your submission could not be uploaded; only **.png**, **.jpg**, and **.jpeg** files are permitted."@
    } else {
        Seq::empty()
    }
}

/// What a submission does: the new list of submissions, which attachment to
/// save under which path, and the answer.
pub struct SubmissionPlan {
    pub data: Vec<Submission>,
    pub downloads: Vec<(usize, String)>,
    pub message: String,
}

fn image_file_name(
    position: Option<usize>,
    data_len: usize,
    name_slug: &String,
    discriminator: u16,
    images_len: usize,
    extension: &str,
) -> (r: String)
    ensures
        r@ == (match position {
            Some(i) => added_file_name((i + 1) as nat, name_slug@, discriminator, (images_len + 1) as nat, extension@),
            None => first_file_name((data_len + 1) as nat, name_slug@, discriminator, images_len as nat, extension@),
        }),
{
    let mut file_name = String::new();
    match position {
        Some(i) => {
            push_nat(&mut file_name, i as u128 + 1);
            push_str(&mut file_name, "-");
            push_str(&mut file_name, name_slug.as_str());
            push_str(&mut file_name, "-");
            push_nat(&mut file_name, discriminator as u128);
            push_str(&mut file_name, "-");
            push_nat(&mut file_name, images_len as u128 + 1);
        },
        None => {
            push_nat(&mut file_name, data_len as u128 + 1);
            push_str(&mut file_name, "-");
            push_str(&mut file_name, name_slug.as_str());
            push_str(&mut file_name, "-");
            push_nat(&mut file_name, discriminator as u128);
            if images_len == 0 {
                push_str(&mut file_name, "");
            } else {
                push_str(&mut file_name, "-");
                push_nat(&mut file_name, images_len as u128 + 1);
            }
        },
    }
    push_str(&mut file_name, ".");
    push_str(&mut file_name, extension);
    assert(file_name@ =~= (match position {
        Some(i) => added_file_name((i + 1) as nat, name_slug@, discriminator, (images_len + 1) as nat, extension@),
        None => first_file_name((data_len + 1) as nat, name_slug@, discriminator, images_len as nat, extension@),
    }));
    file_name
}

fn find_submission(data: &Vec<Submission>, id: &String) -> (r: Option<usize>)
    ensures
        r matches Some(i) ==> first_index(submission_ids(submissions_view(data@)), id@) == Some(i as int)
            && i < data@.len(),
        r is None ==> first_index(submission_ids(submissions_view(data@)), id@) is None,
{
    let ghost ids = submission_ids(submissions_view(data@));
    for k in 0..data.len()
        invariant
            ids == submission_ids(submissions_view(data@)),
            ids.len() == data@.len(),
            forall|m: int| 0 <= m < k ==> ids[m] != id@,
    {
        assert(ids[k as int] == data@[k as int].id@);
        if data[k].id == *id {
            proof {
                lemma_first_index_found(ids, id@, k as int);
            }
            return Some(k);
        }
    }
    proof {
        lemma_first_index_absent(ids, id@);
    }
    None
}

/// Plans a submission of the attachments with these content types to the
/// challenge `challenge`, of the site at `hugo_path`.
pub fn plan_submission(
    hugo_path: &str,
    data: Vec<Submission>,
    author: &Author,
    content_types: &Vec<Option<String>>,
    challenge: i32,
) -> (p: SubmissionPlan)
    ensures
        ({
            let acc = accepted(types_view(content_types@));
            let names = planned_names(submissions_view(data@), author@, acc);
            &&& submissions_view(p.data@) == updated_submissions(submissions_view(data@), author@, names)
            &&& p.downloads@.len() == acc.len()
            &&& forall|j: int| 0 <= j < acc.len() ==> (#[trigger] p.downloads@[j]).0 == acc[j].0
                && p.downloads@[j].1@ == images_dir(hugo_path@, challenge) + "/"@ + names[j]
            &&& p.message@ == submission_reply(acc.len(), content_types@.len(), challenge)
        }),
        ascii_alphanumeric(author.name@) ==> slug(author.name@) == author.name@.map_values(|c: char| ascii_lower(c)),
{
    let ghost old_data = submissions_view(data@);
    let ghost types = types_view(content_types@);
    let id_text = u64_text(author.id);
    let name_slug = slugify_name(author.name.as_str());
    let dir = get_submission_images_dir(hugo_path, challenge);
    let mut data = data;
    let data_len = data.len();
    let ghost ids = submission_ids(old_data);
    let position = find_submission(&data, &id_text);
    let ghost base = match position {
        Some(i) => old_data[i as int].images,
        None => Seq::<JsonView>::empty(),
    };
    let ghost whole = data@;
    let (mut images, kept): (Vec<JsonValue>, Option<(String, Vec<(String, JsonValue)>)>) = match position {
        Some(i) => {
            let Submission { id, images, others } = data.remove(i);
            (images, Some((id, others)))
        },
        None => (Vec::new(), None),
    };
    let ghost rest = data@;
    assert(position is None ==> kept is None && rest == whole);
    assert(position matches Some(i) ==> kept matches Some(k) && k.0@ == old_data[i as int].id
        && keyed_view(k.1@) == old_data[i as int].others && rest == whole.remove(i as int));
    assert(images@.map_values(|v: JsonValue| v@) =~= base);
    let mut downloads: Vec<(usize, String)> = Vec::new();
    let mut invalid_types = false;
    let mut requires_rebuild = false;
    let png = to_string("image/png");
    let jpeg = to_string("image/jpeg");
    let n = content_types.len();
    for a in 0..n
        invariant
            n == content_types@.len(),
            types == types_view(content_types@),
            data@ == rest,
            data_len == old_data.len(),
            ids == submission_ids(old_data),
            id_text@ == nat_text(author.id as nat),
            name_slug@ == slug(author.name@),
            dir@ == images_dir(hugo_path@, challenge),
            png@ == "image/png"@,
            jpeg@ == "image/jpeg"@,
            position matches Some(i) ==> first_index(ids, id_text@) == Some(i as int) && i < old_data.len(),
            position is None ==> first_index(ids, id_text@) is None,
            base == (match position {
                Some(i) => old_data[i as int].images,
                None => Seq::<JsonView>::empty(),
            }),
            images@.map_values(|v: JsonValue| v@) == base + texts(planned_names(old_data, author@, accepted(types.take(a as int)))),
            downloads@.len() == accepted(types.take(a as int)).len(),
            forall|j: int| 0 <= j < downloads@.len() ==> (#[trigger] downloads@[j]).0 == accepted(types.take(a as int))[j].0
                && downloads@[j].1@ == dir@ + "/"@ + planned_names(old_data, author@, accepted(types.take(a as int)))[j],
            invalid_types == (accepted(types.take(a as int)).len() < a),
            requires_rebuild == (accepted(types.take(a as int)).len() > 0),
            accepted(types.take(a as int)).len() <= a,
    {
        let ghost prev_acc = accepted(types.take(a as int));
        let ghost prev_names = planned_names(old_data, author@, prev_acc);
        assert(types.take(a + 1).drop_last() =~= types.take(a as int));
        assert(types.take(a + 1).last() == types[a as int]);
        let extension: Option<&str> = match &content_types[a] {
            Some(content_type) => {
                if *content_type == png {
                    Some("png")
                } else if *content_type == jpeg {
                    Some("jpg")
                } else {
                    None
                }
            },
            None => None,
        };
        if extension.is_none() {
            invalid_types = true;
            assert(accepted(types.take(a + 1)) == prev_acc);
        } else {
            let extension = extension.unwrap();
            let ghost acc = accepted(types.take(a + 1));
            let ghost j = prev_acc.len() as int;
            assert(acc == prev_acc.push((a as int, extension@)));
            requires_rebuild = true;
            let ghost names = planned_names(old_data, author@, acc);
            assert(names.len() == j + 1);
            assert(names.drop_last() =~= prev_names);
            assert(names[j] == planned_name(old_data, author@, j, extension@));
            assert(images@.len() == base.len() + j) by {
                assert(images@.map_values(|v: JsonValue| v@).len() == images@.len());
            }
            let file_name = image_file_name(position, data_len, &name_slug, author.discriminator, images.len(), extension);
            assert(file_name@ == planned_name(old_data, author@, j, extension@));
            let mut path = String::new();
            push_str(&mut path, dir.as_str());
            push_str(&mut path, "/");
            push_str(&mut path, file_name.as_str());
            let ghost old_images = images@;
            images.push(JsonValue::Text(file_name));
            assert(names =~= prev_names.push(names[j]));
            assert(texts(names) =~= texts(prev_names).push(JsonView::Text(names[j])));
            assert(images@.map_values(|v: JsonValue| v@) =~= old_images.map_values(|v: JsonValue| v@).push(
                JsonView::Text(names[j]),
            ));
            assert(images@.map_values(|v: JsonValue| v@) =~= base + texts(names));
            downloads.push((a, path));
        }
    }
    assert(types.take(n as int) =~= types);
    let ghost acc = accepted(types);
    let ghost names = planned_names(old_data, author@, acc);
    match kept {
        Some((id, others)) => {
            let i = match position {
                Some(i) => i,
                None => 0,
            };
            data.insert(i, Submission { id, images, others });
            assert(submissions_view(data@) =~= updated_submissions(old_data, author@, names));
        },
        None => {
            let mut username = to_string(author.name.as_str());
            push_str(&mut username, "#");
            push_nat(&mut username, author.discriminator as u128);
            let mut others: Vec<(String, JsonValue)> = Vec::new();
            others.push((to_string("username"), JsonValue::Text(username)));
            assert(keyed_view(others@) =~= seq![("username"@, JsonView::Text(username@))]);
            assert(position is None);
            data.push(Submission { id: id_text, images, others });
            assert(submissions_view(data@) =~= updated_submissions(old_data, author@, names));
        },
    }
    let mut message = String::new();
    if requires_rebuild {
        push_str(&mut message, "Thank you for submitting! You can view your submission at <https://tegakituesday.com/");
        push_int(&mut message, challenge as i64);
        push_str(&mut message, ">");
        if invalid_types {
            push_str(&mut message, "\nSome of your attachments could not be uploaded; only **.png**, **.jpg**, and **.jpeg** files are permitted.");
        }
    } else if invalid_types {
        push_str(&mut message, "Sorry, your submission could not be uploaded; only **.png**, **.jpg**, and **.jpeg** files are permitted.");
    }
    assert(message@ =~= submission_reply(acc.len(), content_types@.len(), challenge));
    SubmissionPlan { data, downloads, message }
}

} // verus!
