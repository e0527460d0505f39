use ji_chan::guilds::{
    announcement_reply, announcement_role_reply, is_announceable, plan_announcements, set_announcement_role,
    set_submission_channel, set_suggestion_channel, submission_channel_reply, suggestion_channel_reply, GuildData,
    GuildEntry, GuildSettings,
};
use ji_chan::json::JsonValue;
use ji_chan::submissions::{
    get_challenge_number, get_submission_data_path, get_submission_images_dir, is_matching_submission,
    missing_attachments_reply, plan_submission, Author, Submission,
};

fn s(t: &str) -> String {
    t.to_string()
}

fn text(t: &str) -> JsonValue {
    JsonValue::Text(s(t))
}

fn submission(id: &str, username: &str, images: &[&str]) -> Submission {
    Submission {
        id: s(id),
        images: images.iter().map(|i| text(i)).collect(),
        others: vec![(s("username"), text(username))],
    }
}

fn username(sub: &Submission) -> &JsonValue {
    &sub.others.iter().find(|(k, _)| k == "username").unwrap().1
}

fn author() -> Author {
    Author { id: 42, name: s("Alice Smith"), discriminator: 7 }
}

#[test]
fn challenge_number_is_the_largest_page() {
    assert_eq!(get_challenge_number(&vec![s("1"), s("3"), s("2")]), Some(3));
    assert_eq!(get_challenge_number(&vec![]), Some(0));
    assert_eq!(get_challenge_number(&vec![s("-4")]), Some(0));
    assert_eq!(get_challenge_number(&vec![s("1"), s("_index")]), None);
}

#[test]
fn paths_of_a_challenge() {
    assert_eq!(get_submission_images_dir("/srv/hugo", 12), "/srv/hugo/assets/12");
    assert_eq!(get_submission_data_path("/srv/hugo", 12), "/srv/hugo/data/challenges/12.json");
}

#[test]
fn matching_submission_compares_the_user_id() {
    let sub = submission("42", "x#1", &[]);
    assert!(is_matching_submission(&sub, 42));
    assert!(!is_matching_submission(&sub, 4));
}

#[test]
fn no_attachment_gets_a_reply() {
    assert_eq!(missing_attachments_reply(0), Some(s("Please attach at least one image.")));
    assert_eq!(missing_attachments_reply(2), None);
}

#[test]
fn first_submission_of_a_user() {
    let data = vec![submission("9", "bob#1", &["1-bob-1.png"])];
    let p = plan_submission(
        "/h",
        data,
        &author(),
        &vec![Some(s("image/png")), Some(s("image/gif")), None, Some(s("image/jpeg"))],
        3,
    );
    assert_eq!(p.data.len(), 2);
    assert_eq!(p.data[0].images, vec![text("1-bob-1.png")]);
    assert_eq!(p.data[1].id, "42");
    assert_eq!(p.data[1].others, vec![(s("username"), text("Alice Smith#7"))]);
    assert_eq!(p.data[1].images, vec![text("2-alice-smith-7.png"), text("2-alice-smith-7-2.jpg")]);
    assert_eq!(
        p.downloads,
        vec![(0, s("/h/assets/3/2-alice-smith-7.png")), (3, s("/h/assets/3/2-alice-smith-7-2.jpg"))]
    );
    assert_eq!(
        p.message,
        "Thank you for submitting! You can view your submission at <https://tegakituesday.com/3>\nSome of your attachments could not be uploaded; only **.png**, **.jpg**, and **.jpeg** files are permitted."
    );
}

#[test]
fn later_submission_adds_images() {
    let data = vec![
        submission("9", "bob#1", &[]),
        submission("42", "Alice#7", &["2-alice-7.png"]),
    ];
    let p = plan_submission("/h", data, &author(), &vec![Some(s("image/jpeg"))], 5);
    assert_eq!(p.data.len(), 2);
    assert_eq!(username(&p.data[1]), &text("Alice#7"));
    assert_eq!(p.data[1].images, vec![text("2-alice-7.png"), text("2-alice-smith-7-2.jpg")]);
    assert_eq!(p.downloads, vec![(0, s("/h/assets/5/2-alice-smith-7-2.jpg"))]);
    assert_eq!(p.message, "Thank you for submitting! You can view your submission at <https://tegakituesday.com/5>");
}

#[test]
fn submission_without_images() {
    let p = plan_submission("/h", vec![], &author(), &vec![Some(s("text/plain"))], 5);
    assert_eq!(p.downloads, vec![]);
    assert_eq!(p.data.len(), 1);
    assert_eq!(p.data[0].images, Vec::<JsonValue>::new());
    assert_eq!(
        p.message,
        "Sorry, your submission could not be uploaded; only **.png**, **.jpg**, and **.jpeg** files are permitted."
    );
}

fn guild(channel: Option<&str>, role: Option<&str>) -> GuildEntry {
    let mut fields = Vec::new();
    if let Some(c) = channel {
        fields.push((s("submissionChannel"), text(c)));
    }
    if let Some(r) = role {
        fields.push((s("announcementRole"), text(r)));
    }
    GuildEntry::Guild(GuildSettings { fields })
}

fn field(g: &GuildSettings, key: &str) -> Option<JsonValue> {
    g.fields.iter().find(|(k, _)| k == key).map(|(_, v)| v.clone())
}

fn settings_of<'a>(data: &'a GuildData, key: &str) -> &'a GuildSettings {
    for (k, e) in data.entries.iter() {
        if k == key {
            if let GuildEntry::Guild(g) = e {
                return g;
            }
        }
    }
    panic!("no settings for {}", key)
}

#[test]
fn setting_the_submission_channel_keeps_the_role() {
    let mut data = GuildData { entries: vec![(s("1"), guild(Some("10"), Some("77"))), (s("2"), guild(None, None))] };
    set_submission_channel(&mut data, 1, 11);
    let g = settings_of(&data, "1");
    assert_eq!(field(g, "submissionChannel"), Some(text("11")));
    assert_eq!(field(g, "announcementRole"), Some(text("77")));
    set_submission_channel(&mut data, 3, 30);
    assert_eq!(data.entries.len(), 3);
    assert_eq!(field(settings_of(&data, "3"), "submissionChannel"), Some(text("30")));
    assert_eq!(field(settings_of(&data, "3"), "announcementRole"), None);
    assert_eq!(field(settings_of(&data, "2"), "submissionChannel"), None);
}

#[test]
fn setting_the_role_keeps_the_channel() {
    let mut data = GuildData { entries: vec![(s("1"), guild(Some("10"), None))] };
    set_announcement_role(&mut data, 1, 5);
    let g = settings_of(&data, "1");
    assert_eq!(field(g, "submissionChannel"), Some(text("10")));
    assert_eq!(field(g, "announcementRole"), Some(text("5")));
    set_announcement_role(&mut data, 8, 6);
    assert_eq!(field(settings_of(&data, "8"), "announcementRole"), Some(text("6")));
}

#[test]
fn setting_the_suggestion_channel_replaces_its_entry() {
    let mut data = GuildData { entries: vec![(s("suggestionChannel"), GuildEntry::Text(s("1")))] };
    set_suggestion_channel(&mut data, 99);
    assert_eq!(data.entries.len(), 1);
    assert!(matches!(&data.entries[0].1, GuildEntry::Text(t) if t == "99"));
}

#[test]
fn announcements_go_to_each_submission_channel() {
    let data = GuildData {
        entries: vec![
            (s("1"), guild(Some("10"), Some("77"))),
            (s("2"), guild(None, Some("5"))),
            (s("3"), guild(Some("30"), None)),
        ],
    };
    assert!(is_announceable(&data, true));
    assert_eq!(plan_announcements(&data, "hi", true), vec![(10, s("<@&77> hi")), (30, s("hi"))]);
    assert_eq!(plan_announcements(&data, "hi", false), vec![(10, s("hi")), (30, s("hi"))]);
    assert_eq!(announcement_reply(2), "Announced to 2 servers!");
    assert_eq!(announcement_reply(1), "Announced to 1 server!");
    assert_eq!(announcement_reply(0), "Announced to 0 servers!");
}

#[test]
fn a_set_channel_is_announced() {
    let mut data = GuildData { entries: vec![(s("1"), guild(None, Some("77")))] };
    set_submission_channel(&mut data, 1, 123456789012345678);
    assert!(is_announceable(&data, true));
    assert_eq!(plan_announcements(&data, "hey", true), vec![(123456789012345678, s("<@&77> hey"))]);
}

#[test]
fn entries_that_cannot_be_announced() {
    let top = GuildData { entries: vec![(s("suggestionChannel"), GuildEntry::Text(s("1")))] };
    assert!(!is_announceable(&top, false));
    let bad = GuildData { entries: vec![(s("1"), guild(Some("abc"), None))] };
    assert!(!is_announceable(&bad, false));
    let number = GuildData {
        entries: vec![(s("1"), GuildEntry::Guild(GuildSettings { fields: vec![(s("submissionChannel"), JsonValue::Other(s("5")))] }))],
    };
    assert!(!is_announceable(&number, false));
    let role = GuildData {
        entries: vec![(
            s("1"),
            GuildEntry::Guild(GuildSettings {
                fields: vec![(s("submissionChannel"), text("5")), (s("announcementRole"), JsonValue::Other(s("7")))],
            }),
        )],
    };
    assert!(!is_announceable(&role, true));
    assert!(is_announceable(&role, false));
    assert_eq!(plan_announcements(&role, "x", false), vec![(5, s("x"))]);
}

#[test]
fn guild_replies() {
    assert_eq!(submission_channel_reply("Tegaki", 55), "Submission channel for **Tegaki** set to <#55>.");
    assert_eq!(suggestion_channel_reply(56), "Submission channel set to <#56>.");
    assert_eq!(announcement_role_reply(Some(1)), "Announcement role set.");
    assert_eq!(announcement_role_reply(None), "Please provide an announcement role ID.");
}

#[test]
fn setting_a_channel_keeps_the_other_keys() {
    let mut data = GuildData {
        entries: vec![(
            s("1"),
            GuildEntry::Guild(GuildSettings {
                fields: vec![
                    (s("announcementRole"), text("77")),
                    (s("name"), text("Tegaki")),
                    (s("pins"), JsonValue::Other(s("[1,2]"))),
                ],
            }),
        )],
    };
    set_submission_channel(&mut data, 1, 12);
    let g = settings_of(&data, "1");
    assert_eq!(
        g.fields,
        vec![
            (s("announcementRole"), text("77")),
            (s("name"), text("Tegaki")),
            (s("pins"), JsonValue::Other(s("[1,2]"))),
            (s("submissionChannel"), text("12")),
        ]
    );
    set_announcement_role(&mut data, 1, 5);
    assert_eq!(field(settings_of(&data, "1"), "announcementRole"), Some(text("5")));
    assert_eq!(field(settings_of(&data, "1"), "pins"), Some(JsonValue::Other(s("[1,2]"))));
    assert_eq!(settings_of(&data, "1").fields.len(), 4);
}

#[test]
fn a_submission_keeps_its_other_keys() {
    let data = vec![Submission {
        id: s("42"),
        images: vec![text("1-alice-7.png"), JsonValue::Other(s("null"))],
        others: vec![(s("note"), text("first")), (s("username"), text("Alice#7"))],
    }];
    let p = plan_submission("/h", data, &author(), &vec![Some(s("image/png"))], 2);
    assert_eq!(p.data.len(), 1);
    assert_eq!(p.data[0].others, vec![(s("note"), text("first")), (s("username"), text("Alice#7"))]);
    assert_eq!(
        p.data[0].images,
        vec![text("1-alice-7.png"), JsonValue::Other(s("null")), text("1-alice-smith-7-3.png")]
    );
    assert_eq!(p.downloads, vec![(0, s("/h/assets/2/1-alice-smith-7-3.png"))]);
}

#[test]
fn new_keys_take_their_place_in_key_order() {
    let mut data = GuildData { entries: vec![(s("1"), guild(None, None)), (s("2"), guild(Some("20"), None))] };
    set_submission_channel(&mut data, 10, 100);
    let keys: Vec<&str> = data.entries.iter().map(|(k, _)| k.as_str()).collect();
    assert_eq!(keys, vec!["1", "10", "2"]);
    set_announcement_role(&mut data, 2, 7);
    let g = settings_of(&data, "2");
    assert_eq!(g.fields, vec![(s("announcementRole"), text("7")), (s("submissionChannel"), text("20"))]);
    set_announcement_role(&mut data, 0, 3);
    let keys: Vec<&str> = data.entries.iter().map(|(k, _)| k.as_str()).collect();
    assert_eq!(keys, vec!["0", "1", "10", "2"]);
}

#[test]
fn simple_names_keep_their_letters() {
    let author = Author { id: 5, name: s("Jichan42"), discriminator: 1 };
    let p = plan_submission("/h", vec![], &author, &vec![Some(s("image/png"))], 1);
    assert_eq!(p.data[0].images, vec![text("1-jichan42-1.png")]);
    assert_eq!(p.data[0].others, vec![(s("username"), text("Jichan42#1"))]);
}
