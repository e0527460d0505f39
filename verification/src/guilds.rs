//! The settings the bot keeps per Discord server (guild): where submissions
//! are announced and which role an announcement mentions.
use vstd::prelude::*;
use crate::json::{JsonValue, JsonView};
use crate::parse::{parse_u64, parsed_u64};
use crate::text::{
    find_key, keyed_view, lemma_lookup_first_index, lookup, lookup_key, nat_text, push_nat, push_str,
    put_at, put_key, set_entry, to_string, u64_text,
};

verus! {

/// The settings of one server: every key of its object, in order, with its value.
pub struct GuildSettings {
    pub fields: Vec<(String, JsonValue)>,
}

/// One entry of the settings file: a server's settings, or a value that is
/// no object: a string, or any other JSON value, kept as its JSON text.
pub enum GuildEntry {
    Guild(GuildSettings),
    Text(String),
    Other(String),
}

/// The settings file: its entries by key, in the order in which its JSON
/// object holds them (the order of the keys, which every change keeps).
pub struct GuildData {
    pub entries: Vec<(String, GuildEntry)>,
}

pub struct GuildSettingsView {
    pub fields: Seq<(Seq<char>, JsonView)>,
}

pub enum GuildEntryView {
    Guild(GuildSettingsView),
    Text(Seq<char>),
    Other(Seq<char>),
}

impl View for GuildSettings {
    type V = GuildSettingsView;

    open spec fn view(&self) -> GuildSettingsView {
        GuildSettingsView { fields: keyed_view(self.fields@) }
    }
}

impl View for GuildEntry {
    type V = GuildEntryView;

    open spec fn view(&self) -> GuildEntryView {
        match self {
            GuildEntry::Guild(g) => GuildEntryView::Guild(g@),
            GuildEntry::Text(s) => GuildEntryView::Text(s@),
            GuildEntry::Other(s) => GuildEntryView::Other(s@),
        }
    }
}

impl View for GuildData {
    type V = Seq<(Seq<char>, GuildEntryView)>;

    open spec fn view(&self) -> Seq<(Seq<char>, GuildEntryView)> {
        keyed_view(self.entries@)
    }
}

/// The key under which a server's submission channel is kept.
pub open spec fn channel_key() -> Seq<char> {
    "submissionChannel"@
}

/// The key under which a server's announcement role is kept.
pub open spec fn role_key() -> Seq<char> {
    "announcementRole"@
}

/// The fields of a server's settings; none where the server has no entry.
pub open spec fn settings_fields(current: Option<GuildEntryView>) -> Seq<(Seq<char>, JsonView)> {
    match current {
        Some(GuildEntryView::Guild(g)) => g.fields,
        _ => Seq::empty(),
    }
}

/// A server's settings after one of them is set to a string: that key holds
/// it, in its place or added among the keys in their order, and every other
/// key stays as it was.
pub open spec fn with_setting(current: Option<GuildEntryView>, key: Seq<char>, value: Seq<char>) -> GuildEntryView {
    GuildEntryView::Guild(GuildSettingsView { fields: set_entry(settings_fields(current), key, JsonView::Text(value)) })
}

/// A server's settings after its submission channel is set.
pub open spec fn with_submission_channel(current: Option<GuildEntryView>, channel: Seq<char>) -> GuildEntryView {
    with_setting(current, channel_key(), channel)
}

/// A server's settings after its announcement role is set.
pub open spec fn with_announcement_role(current: Option<GuildEntryView>, role: Seq<char>) -> GuildEntryView {
    with_setting(current, role_key(), role)
}

/// The entry under `key` is missing or is a server's settings (the others
/// cannot be changed as settings).
pub open spec fn settable(entries: Seq<(Seq<char>, GuildEntryView)>, key: Seq<char>) -> bool {
    lookup(entries, key) matches Some(e) ==> e is Guild
}

/// Sets one setting of a server to a string.
fn set_setting(data: &mut GuildData, guild_id: u64, key: &str, value: String)
    requires
        settable(old(data)@, nat_text(guild_id as nat)),
    ensures
        final(data)@ == set_entry(
            old(data)@,
            nat_text(guild_id as nat),
            with_setting(lookup(old(data)@, nat_text(guild_id as nat)), key@, value@),
        ),
{
    let guild = u64_text(guild_id);
    let position = find_key(&data.entries, &guild);
    proof {
        lemma_lookup_first_index(data@, guild@);
    }
    let ghost current = lookup(data@, guild@);
    let ghost target = with_setting(current, key@, value@);
    match position {
        Some(i) => {
            let (_, entry) = data.entries.remove(i);
            assert(current == Some(entry@));
            let mut fields = match entry {
                GuildEntry::Guild(g) => g.fields,
                _ => Vec::new(),
            };
            assert(keyed_view(fields@) == settings_fields(current));
            put_key(&mut fields, to_string(key), JsonValue::Text(value));
            data.entries.insert(i, (guild, GuildEntry::Guild(GuildSettings { fields })));
        },
        None => {
            let mut fields: Vec<(String, JsonValue)> = Vec::new();
            assert(keyed_view(fields@) =~= settings_fields(current));
            put_key(&mut fields, to_string(key), JsonValue::Text(value));
            put_at(&mut data.entries, None, guild, GuildEntry::Guild(GuildSettings { fields }));
        },
    }
    assert(data@ =~= set_entry(old(data)@, guild@, target));
}

/// Sets the channel where submissions are announced for a server; every
/// other key of the server's settings, and every other entry, stays.
pub fn set_submission_channel(data: &mut GuildData, guild_id: u64, channel_id: u64)
    requires
        settable(old(data)@, nat_text(guild_id as nat)),
    ensures
        final(data)@ == set_entry(
            old(data)@,
            nat_text(guild_id as nat),
            with_submission_channel(lookup(old(data)@, nat_text(guild_id as nat)), nat_text(channel_id as nat)),
        ),
{
    set_setting(data, guild_id, "submissionChannel", u64_text(channel_id));
}

/// Sets the role that announcements mention on a server; every other key of
/// the server's settings, and every other entry, stays.
pub fn set_announcement_role(data: &mut GuildData, guild_id: u64, role_id: u64)
    requires
        settable(old(data)@, nat_text(guild_id as nat)),
    ensures
        final(data)@ == set_entry(
            old(data)@,
            nat_text(guild_id as nat),
            with_announcement_role(lookup(old(data)@, nat_text(guild_id as nat)), nat_text(role_id as nat)),
        ),
{
    set_setting(data, guild_id, "announcementRole", u64_text(role_id));
}

/// Sets the suggestion channel, kept as a string under its own key. The key
/// must be there already: the file is changed in place, never extended.
pub fn set_suggestion_channel(data: &mut GuildData, channel_id: u64)
    requires
        lookup(old(data)@, "suggestionChannel"@) is Some,
    ensures
        final(data)@ == set_entry(old(data)@, "suggestionChannel"@, GuildEntryView::Text(nat_text(channel_id as nat))),
{
    put_key(&mut data.entries, to_string("suggestionChannel"), GuildEntry::Text(u64_text(channel_id)));
}

/// Every entry can be announced to: what announcing needs.
pub open spec fn announceable(entries: Seq<(Seq<char>, GuildEntryView)>, ping: bool) -> bool {
    forall|i: int| 0 <= i < entries.len() ==> entry_announceable(#[trigger] entries[i].1, ping)
}

/// An entry is a server's settings; its submission channel, if it has one, is
/// a string holding a number, and then, when the announcement pings, its
/// announcement role, if it has one, is a string.
pub open spec fn entry_announceable(e: GuildEntryView, ping: bool) -> bool {
    match e {
        GuildEntryView::Guild(g) => match lookup(g.fields, channel_key()) {
            Some(JsonView::Text(c)) => parsed_u64(c) is Some && (ping ==> !(lookup(g.fields, role_key()) matches Some(
                JsonView::Other(_),
            ))),
            Some(JsonView::Other(_)) => false,
            None => true,
        },
        _ => false,
    }
}

/// The text announced on a server: the message, after a mention of the
/// server's announcement role when the announcement pings and there is one.
pub open spec fn announcement_text(fields: Seq<(Seq<char>, JsonView)>, message: Seq<char>, ping: bool) -> Seq<char> {
    match lookup(fields, role_key()) {
        Some(JsonView::Text(role)) => if ping {
            "<@&"@ + role + "> "@ + message
        } else {
            message
        },
        _ => message,
    }
}

/// The announcements, in order of the entries: for each server with a
/// submission channel, the channel and the text.
pub open spec fn announcements(entries: Seq<(Seq<char>, GuildEntryView)>, message: Seq<char>, ping: bool) -> Seq<(u64, Seq<char>)>
    decreases entries.len(),
{
    if entries.len() == 0 {
        Seq::empty()
    } else {
        let prev = announcements(entries.drop_last(), message, ping);
        match entries.last().1 {
            GuildEntryView::Guild(g) => match lookup(g.fields, channel_key()) {
                Some(JsonView::Text(c)) => prev.push((parsed_u64(c).unwrap(), announcement_text(g.fields, message, ping))),
                _ => prev,
            },
            _ => prev,
        }
    }
}

pub open spec fn planned_view(plan: Seq<(u64, String)>) -> Seq<(u64, Seq<char>)> {
    plan.map_values(|p: (u64, String)| (p.0, p.1@))
}

/// Whether every entry can be announced to.
pub fn is_announceable(data: &GuildData, ping: bool) -> (r: bool)
    ensures
        r == announceable(data@, ping),
{
    let channel_name = to_string("submissionChannel");
    let role_name = to_string("announcementRole");
    for i in 0..data.entries.len()
        invariant
            channel_name@ == channel_key(),
            role_name@ == role_key(),
            forall|k: int| 0 <= k < i ==> entry_announceable(#[trigger] data@[k].1, ping),
    {
        assert(data@[i as int] == (data.entries@[i as int].0@, data.entries@[i as int].1@));
        match &data.entries[i].1 {
            GuildEntry::Guild(g) => match lookup_key(&g.fields, &channel_name) {
                Some(JsonValue::Text(c)) => {
                    if parse_u64(c.as_str()).is_none() {
                        assert(!entry_announceable(data@[i as int].1, ping));
                        return false;
                    }
                    if ping {
                        match lookup_key(&g.fields, &role_name) {
                            Some(JsonValue::Other(_)) => {
                                assert(!entry_announceable(data@[i as int].1, ping));
                                return false;
                            },
                            _ => {},
                        }
                    }
                },
                Some(JsonValue::Other(_)) => {
                    assert(!entry_announceable(data@[i as int].1, ping));
                    return false;
                },
                None => {},
            },
            _ => {
                assert(!entry_announceable(data@[i as int].1, ping));
                return false;
            },
        }
    }
    true
}

/// Where an announcement goes and what it says, for each server that has a
/// submission channel.
pub fn plan_announcements(data: &GuildData, message: &str, ping: bool) -> (plan: Vec<(u64, String)>)
    requires
        announceable(data@, ping),
    ensures
        planned_view(plan@) == announcements(data@, message@, ping),
{
    let channel_name = to_string("submissionChannel");
    let role_name = to_string("announcementRole");
    let mut plan: Vec<(u64, String)> = Vec::new();
    let n = data.entries.len();
    for i in 0..n
        invariant
            n == data@.len(),
            channel_name@ == channel_key(),
            role_name@ == role_key(),
            announceable(data@, ping),
            planned_view(plan@) == announcements(data@.take(i as int), message@, ping),
    {
        assert(data@.take(i + 1).drop_last() =~= data@.take(i as int));
        assert(data@.take(i + 1).last() == (data.entries@[i as int].0@, data.entries@[i as int].1@));
        assert(entry_announceable(data@[i as int].1, ping));
        let ghost before = plan@;
        match &data.entries[i].1 {
            GuildEntry::Guild(g) => match lookup_key(&g.fields, &channel_name) {
                Some(JsonValue::Text(c)) => {
                    let channel = match parse_u64(c.as_str()) {
                        Some(v) => v,
                        None => 0,
                    };
                    let mut text = String::new();
                    if ping {
                        match lookup_key(&g.fields, &role_name) {
                            Some(JsonValue::Text(role)) => {
                                push_str(&mut text, "<@&");
                                push_str(&mut text, role.as_str());
                                push_str(&mut text, "> ");
                            },
                            _ => {},
                        }
                    }
                    push_str(&mut text, message);
                    assert(text@ =~= announcement_text(g@.fields, message@, ping));
                    plan.push((channel, text));
                    assert(planned_view(plan@) =~= planned_view(before).push((channel, text@)));
                },
                _ => {},
            },
            _ => {},
        }
    }
    assert(data@.take(n as int) =~= data@);
    plan
}

/// The answer after announcing: on how many servers.
pub fn announcement_reply(count: usize) -> (r: String)
    ensures
        r@ == "Announced to "@ + nat_text(count as nat) + " server"@ + (if count == 1 {
            ""@
        } else {
            "s"@
        }) + "!"@,
{
    let mut r = to_string("Announced to ");
    push_nat(&mut r, count as u128);
    push_str(&mut r, " server");
    if count == 1 {
        push_str(&mut r, "");
    } else {
        push_str(&mut r, "s");
    }
    push_str(&mut r, "!");
    r
}

/// The answer after the submission channel of a server is set.
pub fn submission_channel_reply(guild_name: &str, channel_id: u64) -> (r: String)
    ensures
        r@ == "Submission channel for **"@ + guild_name@ + "** set to <#"@ + nat_text(channel_id as nat) + ">."@,
{
    let mut r = to_string("Submission channel for **");
    push_str(&mut r, guild_name);
    push_str(&mut r, "** set to <#");
    push_nat(&mut r, channel_id as u128);
    push_str(&mut r, ">.");
    r
}

/// The answer after the suggestion channel is set.
pub fn suggestion_channel_reply(channel_id: u64) -> (r: String)
    ensures
        r@ == "Submission channel set to <#"@ + nat_text(channel_id as nat) + ">."@,
{
    let mut r = to_string("Submission channel set to <#");
    push_nat(&mut r, channel_id as u128);
    push_str(&mut r, ">.");
    r
}

/// The answer to setting the announcement role: the role id is needed.
pub fn announcement_role_reply(role_id: Option<u64>) -> (r: String)
    ensures
        role_id is Some ==> r@ == "Announcement role set."@,
        role_id is None ==> r@ == "Please provide an announcement role ID."@,
{
    match role_id {
        Some(_) => to_string("Announcement role set."),
        None => to_string("Please provide an announcement role ID."),
    }
}


/// Whether the settings of a server can be changed: its entry is missing or
/// is a server's settings.
pub fn is_settable(data: &GuildData, guild_id: u64) -> (r: bool)
    ensures
        r == settable(data@, nat_text(guild_id as nat)),
{
    let guild = u64_text(guild_id);
    match lookup_key(&data.entries, &guild) {
        Some(GuildEntry::Guild(_)) => true,
        Some(_) => false,
        None => true,
    }
}

/// Whether the file has a suggestion channel entry to change.
pub fn has_suggestion_channel(data: &GuildData) -> (r: bool)
    ensures
        r == (lookup(data@, "suggestionChannel"@) is Some),
{
    let key = to_string("suggestionChannel");
    lookup_key(&data.entries, &key).is_some()
}

} // verus!
