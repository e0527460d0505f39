//! Properties that hold across the library's functions.
use vstd::prelude::*;
use crate::parse::{all_digits, digits_value, is_digit, parsed_i32, parsed_u64, unsigned_body};
use crate::guilds::{
    GuildEntryView, announceable, announcement_text, announcements, channel_key, entry_announceable, role_key,
    settings_fields, with_setting, with_submission_channel, with_announcement_role,
};
use crate::kanji::{
    CategoryView, CharactersView, categories_info, category_info, default_characters, first_occurrences,
    found_kanji, info_lines, kanji_info, lists_wf, report_text, skipped_count, stroke_order_state, variants_with,
    white_space, MAX_DIAGRAMS,
};
use crate::leaderboard::{LeaderboardUser, distinct, leaderboard_rows, occurrences, with_count};
use crate::json::JsonView;
use crate::submissions::{
    SubmissionView, AuthorView, accepted, planned_names, slug, submission_ids, texts, updated_submissions,
    latest_challenge,
};
use crate::text::{
    int_text, nat_text, digit_char, entry_keys, first_index, keys_sorted, lookup, place_of, set_entry,
    lemma_set_entry, lemma_set_entry_sorted, lemma_lookup_first_index, lemma_place_of_bounds,
};

verus! {

proof fn lemma_nat_text_digits(n: nat)
    ensures
        all_digits(nat_text(n)),
        digits_value(nat_text(n)) == n,
    decreases n,
{
    assert(digit_char(n % 10) as int == n % 10 + 48);
    if n < 10 {
        assert(nat_text(n).drop_last() =~= Seq::<char>::empty());
        assert(digits_value(nat_text(n)) == digits_value(Seq::<char>::empty()) * 10 + ((nat_text(n).last() as int - 48) as nat));
    }
    if n >= 10 {
        lemma_nat_text_digits(n / 10);
        let t = nat_text(n);
        assert(t.drop_last() == nat_text(n / 10));
        assert(t.last() == digit_char(n % 10));
        assert(digits_value(t) == digits_value(t.drop_last()) * 10 + ((t.last() as int - 48) as nat));
        assert(digits_value(t) == (n / 10) * 10 + n % 10);
        assert forall|i: int| 0 <= i < t.len() implies crate::parse::is_digit(#[trigger] t[i]) by {
            if i < t.len() - 1 {
                assert(t[i] == nat_text(n / 10)[i]);
            }
        }
    }
}

/// Decimal text that the bot writes for a number is read back as that number.
pub proof fn law_decimal_round_trip(n: u64)
    ensures
        parsed_u64(nat_text(n as nat)) == Some(n),
{
    lemma_nat_text_digits(n as nat);
    assert(unsigned_body(nat_text(n as nat)) == nat_text(n as nat));
}

/// The decimal text of a signed number is read back as that number.
pub proof fn law_signed_decimal_round_trip(i: i32)
    ensures
        parsed_i32(int_text(i as int)) == Some(i),
{
    if i < 0 {
        let t = int_text(i as int);
        lemma_nat_text_digits((-i) as nat);
        assert(t.drop_first() =~= nat_text((-i) as nat));
    } else {
        lemma_nat_text_digits(i as nat);
        assert(unsigned_body(int_text(i as int)) == nat_text(i as nat));
    }
}


/// After the submission channel of a server is set, the server's settings
/// hold that channel and keep every other key as it was; every other entry
/// stays as it was.
pub proof fn law_submission_channel_read_back(
    entries: Seq<(Seq<char>, GuildEntryView)>,
    guild: u64,
    channel: u64,
    field: Seq<char>,
    other: Seq<char>,
)
    ensures
        ({
            let key = nat_text(guild as nat);
            let before = settings_fields(lookup(entries, key));
            let after = set_entry(entries, key, with_submission_channel(lookup(entries, key), nat_text(channel as nat)));
            &&& lookup(after, key) matches Some(GuildEntryView::Guild(g))
            &&& lookup(g.fields, channel_key()) == Some(JsonView::Text(nat_text(channel as nat)))
            &&& field != channel_key() ==> lookup(g.fields, field) == lookup(before, field)
            &&& other != key ==> lookup(after, other) == lookup(entries, other)
        }),
{
    let key = nat_text(guild as nat);
    let before = settings_fields(lookup(entries, key));
    lemma_set_entry(entries, key, with_submission_channel(lookup(entries, key), nat_text(channel as nat)), other);
    lemma_set_entry(before, channel_key(), JsonView::Text(nat_text(channel as nat)), field);
}

/// After the announcement role of a server is set, the server's settings hold
/// that role and keep every other key as it was; every other entry stays as
/// it was.
pub proof fn law_announcement_role_read_back(
    entries: Seq<(Seq<char>, GuildEntryView)>,
    guild: u64,
    role: u64,
    field: Seq<char>,
    other: Seq<char>,
)
    ensures
        ({
            let key = nat_text(guild as nat);
            let before = settings_fields(lookup(entries, key));
            let after = set_entry(entries, key, with_announcement_role(lookup(entries, key), nat_text(role as nat)));
            &&& lookup(after, key) matches Some(GuildEntryView::Guild(g))
            &&& lookup(g.fields, role_key()) == Some(JsonView::Text(nat_text(role as nat)))
            &&& field != role_key() ==> lookup(g.fields, field) == lookup(before, field)
            &&& other != key ==> lookup(after, other) == lookup(entries, other)
        }),
{
    let key = nat_text(guild as nat);
    let before = settings_fields(lookup(entries, key));
    lemma_set_entry(entries, key, with_announcement_role(lookup(entries, key), nat_text(role as nat)), other);
    lemma_set_entry(before, role_key(), JsonView::Text(nat_text(role as nat)), field);
}

/// After the suggestion channel is set, its entry holds the channel and every
/// other entry stays as it was.
pub proof fn law_suggestion_channel_read_back(entries: Seq<(Seq<char>, GuildEntryView)>, channel: u64, other: Seq<char>)
    ensures
        ({
            let after = set_entry(entries, "suggestionChannel"@, GuildEntryView::Text(nat_text(channel as nat)));
            &&& lookup(after, "suggestionChannel"@) == Some(GuildEntryView::Text(nat_text(channel as nat)))
            &&& other != "suggestionChannel"@ ==> lookup(after, other) == lookup(entries, other)
        }),
{
    lemma_set_entry(entries, "suggestionChannel"@, GuildEntryView::Text(nat_text(channel as nat)), other);
}

proof fn lemma_announcement_at(entries: Seq<(Seq<char>, GuildEntryView)>, i: int, message: Seq<char>, ping: bool)
    requires
        0 <= i < entries.len(),
        entries[i].1 is Guild,
        lookup(entries[i].1->Guild_0.fields, channel_key()) matches Some(JsonView::Text(_)),
    ensures
        ({
            let fields = entries[i].1->Guild_0.fields;
            let c = lookup(fields, channel_key()).unwrap()->Text_0;
            announcements(entries, message, ping).contains((parsed_u64(c).unwrap(), announcement_text(fields, message, ping)))
        }),
    decreases entries.len(),
{
    let fields = entries[i].1->Guild_0.fields;
    let c = lookup(fields, channel_key()).unwrap()->Text_0;
    let a = (parsed_u64(c).unwrap(), announcement_text(fields, message, ping));
    let prev = announcements(entries.drop_last(), message, ping);
    if i < entries.len() - 1 {
        assert(entries.drop_last()[i] == entries[i]);
        lemma_announcement_at(entries.drop_last(), i, message, ping);
        let k = choose|k: int| 0 <= k < prev.len() && prev[k] == a;
        assert(announcements(entries, message, ping)[k] == a);
    } else {
        assert(announcements(entries, message, ping)[prev.len() as int] == a);
    }
}

/// Once a server's submission channel is set, announcing sends to that
/// channel on that server, with the text that its settings give (where
/// announcing could be done before, and the server's announcement role, when
/// the announcement pings, is no value other than a string).
pub proof fn law_set_channel_is_announced(
    entries: Seq<(Seq<char>, GuildEntryView)>,
    guild: u64,
    channel: u64,
    message: Seq<char>,
    ping: bool,
)
    requires
        announceable(entries, ping),
        ping ==> !(lookup(settings_fields(lookup(entries, nat_text(guild as nat))), role_key()) matches Some(
            JsonView::Other(_),
        )),
    ensures
        ({
            let key = nat_text(guild as nat);
            let after = set_entry(entries, key, with_submission_channel(lookup(entries, key), nat_text(channel as nat)));
            &&& announceable(after, ping)
            &&& announcements(after, message, ping).contains(
                (channel, announcement_text(settings_fields(lookup(entries, key)), message, ping)),
            )
        }),
{
    let key = nat_text(guild as nat);
    let before = settings_fields(lookup(entries, key));
    let value = JsonView::Text(nat_text(channel as nat));
    let g = with_submission_channel(lookup(entries, key), nat_text(channel as nat));
    let after = set_entry(entries, key, g);
    law_decimal_round_trip(channel);
    reveal_strlit("submissionChannel");
    reveal_strlit("announcementRole");
    assert(channel_key() != role_key()) by {
        assert(channel_key().len() != role_key().len());
    }
    lemma_set_entry(before, channel_key(), value, role_key());
    lemma_set_entry(before, channel_key(), value, channel_key());
    assert(entry_announceable(g, ping));
    lemma_lookup_first_index(entries, key);
    lemma_place_of_bounds(entry_keys(entries), key);
    let i = match first_index(entry_keys(entries), key) {
        Some(i) => i,
        None => place_of(entry_keys(entries), key),
    };
    assert(after[i] == (key, g));
    assert forall|k: int| 0 <= k < after.len() implies entry_announceable(#[trigger] after[k].1, ping) by {
        if k < i || (k > i && first_index(entry_keys(entries), key) is Some) {
            assert(after[k] == entries[k]);
        } else if k > i {
            assert(after[k] == entries[k - 1]);
        }
    }
    lemma_announcement_at(after, i, message, ping);
    assert(announcement_text(g->Guild_0.fields, message, ping) == announcement_text(before, message, ping));
}

/// The keys of the settings file, and of each server's settings, are in
/// increasing order, each once.
pub open spec fn guild_keys_sorted(entries: Seq<(Seq<char>, GuildEntryView)>) -> bool {
    &&& keys_sorted(entries)
    &&& forall|i: int| 0 <= i < entries.len() ==> (#[trigger] entries[i].1 matches GuildEntryView::Guild(g) ==> keys_sorted(
        g.fields,
    ))
}

/// Setting one of a server's settings (its submission channel or its
/// announcement role) keeps the keys of the settings file, and of every
/// server's settings, in increasing order, each once, as the file's JSON
/// objects hold them.
pub proof fn law_setting_keeps_key_order(
    entries: Seq<(Seq<char>, GuildEntryView)>,
    guild: u64,
    setting: Seq<char>,
    value: Seq<char>,
)
    requires
        guild_keys_sorted(entries),
    ensures
        guild_keys_sorted(set_entry(entries, nat_text(guild as nat), with_setting(lookup(entries, nat_text(guild as nat)), setting, value))),
{
    let key = nat_text(guild as nat);
    let current = lookup(entries, key);
    let g = with_setting(current, setting, value);
    let after = set_entry(entries, key, g);
    lemma_lookup_first_index(entries, key);
    lemma_place_of_bounds(entry_keys(entries), key);
    if let Some(GuildEntryView::Guild(old)) = current {
        let j = first_index(entry_keys(entries), key).unwrap();
        assert(entries[j].1 == GuildEntryView::Guild(old));
    }
    assert(keys_sorted(settings_fields(current)));
    lemma_set_entry_sorted(settings_fields(current), setting, JsonView::Text(value));
    lemma_set_entry_sorted(entries, key, g);
    let i = match first_index(entry_keys(entries), key) {
        Some(i) => i,
        None => place_of(entry_keys(entries), key),
    };
    assert(after[i] == (key, g));
    assert forall|k: int| 0 <= k < after.len() implies (#[trigger] after[k].1 matches GuildEntryView::Guild(f) ==> keys_sorted(
        f.fields,
    )) by {
        if k < i || (k > i && first_index(entry_keys(entries), key) is Some) {
            assert(after[k] == entries[k]);
        } else if k > i {
            assert(after[k] == entries[k - 1]);
        }
    }
}

/// Setting the suggestion channel keeps the keys of the settings file, and of
/// every server's settings, in increasing order, each once.
pub proof fn law_suggestion_channel_keeps_key_order(entries: Seq<(Seq<char>, GuildEntryView)>, channel: u64)
    requires
        guild_keys_sorted(entries),
        lookup(entries, "suggestionChannel"@) is Some,
    ensures
        guild_keys_sorted(set_entry(entries, "suggestionChannel"@, GuildEntryView::Text(nat_text(channel as nat)))),
{
    let key = "suggestionChannel"@;
    let after = set_entry(entries, key, GuildEntryView::Text(nat_text(channel as nat)));
    lemma_lookup_first_index(entries, key);
    lemma_set_entry_sorted(entries, key, GuildEntryView::Text(nat_text(channel as nat)));
    let i = first_index(entry_keys(entries), key).unwrap();
    assert forall|k: int| 0 <= k < after.len() implies (#[trigger] after[k].1 matches GuildEntryView::Guild(f) ==> keys_sorted(
        f.fields,
    )) by {
        if k != i {
            assert(after[k] == entries[k]);
        }
    }
}

/// A kanji belongs to a category when the category's default version holds
/// it, in its single list or in one of its variants.
pub open spec fn category_holds(c: CategoryView, kanji: char) -> bool {
    match default_characters(c) {
        Some(CharactersView::Flat(list)) => list.contains(kanji),
        Some(CharactersView::Variants(vs)) => exists|v: int| 0 <= v < vs.len() && (#[trigger] vs[v]).1.contains(kanji),
        None => false,
    }
}

proof fn lemma_variants_with_nonempty(vs: Seq<(Seq<char>, Seq<char>)>, kanji: char)
    ensures
        variants_with(vs, kanji).len() > 0 <==> exists|v: int| 0 <= v < vs.len() && (#[trigger] vs[v]).1.contains(kanji),
    decreases vs.len(),
{
    if vs.len() > 0 {
        lemma_variants_with_nonempty(vs.drop_last(), kanji);
        if exists|v: int| 0 <= v < vs.len() && (#[trigger] vs[v]).1.contains(kanji) {
            let v = choose|v: int| 0 <= v < vs.len() && (#[trigger] vs[v]).1.contains(kanji);
            if v < vs.len() - 1 {
                assert(vs.drop_last()[v] == vs[v]);
            }
        }
        if exists|v: int| 0 <= v < vs.len() - 1 && (#[trigger] vs.drop_last()[v]).1.contains(kanji) {
            let v = choose|v: int| 0 <= v < vs.len() - 1 && (#[trigger] vs.drop_last()[v]).1.contains(kanji);
            assert(vs[v] == vs.drop_last()[v]);
        }
    }
}

proof fn lemma_category_info_shape(c: CategoryView, kanji: char)
    ensures
        category_info(c, kanji).len() == 0 <==> !category_holds(c, kanji),
        category_info(c, kanji).len() == 0 || category_info(c, kanji).len() >= 6,
{
    reveal_strlit("**");
    reveal_strlit("**, ");
    reveal_strlit("** (");
    reveal_strlit("), ");
    match default_characters(c) {
        Some(CharactersView::Variants(vs)) => lemma_variants_with_nonempty(vs, kanji),
        _ => {},
    }
}

proof fn lemma_categories_info_shape(lists: Seq<CategoryView>, kanji: char)
    ensures
        categories_info(lists, kanji).len() == 0 <==> forall|i: int| 0 <= i < lists.len() ==> !category_holds(#[trigger] lists[i], kanji),
        categories_info(lists, kanji).len() == 0 || categories_info(lists, kanji).len() >= 6,
    decreases lists.len(),
{
    if lists.len() > 0 {
        lemma_categories_info_shape(lists.drop_last(), kanji);
        lemma_category_info_shape(lists.last(), kanji);
        if forall|i: int| 0 <= i < lists.len() - 1 ==> !category_holds(#[trigger] lists.drop_last()[i], kanji) {
            if !category_holds(lists.last(), kanji) {
                assert forall|i: int| 0 <= i < lists.len() implies !category_holds(#[trigger] lists[i], kanji) by {
                    if i < lists.len() - 1 {
                        assert(lists[i] == lists.drop_last()[i]);
                    }
                }
            }
        } else {
            let i = choose|i: int| 0 <= i < lists.len() - 1 && category_holds(#[trigger] lists.drop_last()[i], kanji);
            assert(lists[i] == lists.drop_last()[i]);
        }
    }
}

/// A kanji gets information exactly when some list holds it.
pub proof fn law_info_iff_listed(lists: Seq<CategoryView>, kanji: char)
    requires
        lists_wf(lists),
    ensures
        kanji_info(lists, kanji).len() > 0 <==> exists|i: int| 0 <= i < lists.len() && category_holds(#[trigger] lists[i], kanji),
{
    lemma_categories_info_shape(lists, kanji);
}

/// Each distinct character of a text is either found or skipped.
pub proof fn law_report_counts(lists: Seq<CategoryView>, d: Seq<char>)
    ensures
        found_kanji(lists, d).len() + skipped_count(lists, d) == d.len(),
    decreases d.len(),
{
    if d.len() > 0 {
        law_report_counts(lists, d.drop_last());
    }
}

/// The stroke order command shows at most four diagrams, never the same
/// character twice, and never white space.
pub proof fn law_stroke_order_bounded(s: Seq<char>)
    ensures
        stroke_order_state(s).0.len() <= MAX_DIAGRAMS,
        stroke_order_state(s).0.no_duplicates(),
        forall|i: int| 0 <= i < stroke_order_state(s).0.len() ==> !white_space(#[trigger] stroke_order_state(s).0[i]),
        forall|i: int| 0 <= i < stroke_order_state(s).0.len() ==> s.contains(#[trigger] stroke_order_state(s).0[i]),
    decreases s.len(),
{
    if s.len() > 0 {
        law_stroke_order_bounded(s.drop_last());
        let prev = stroke_order_state(s.drop_last()).0;
        assert forall|i: int| 0 <= i < stroke_order_state(s).0.len() implies s.contains(#[trigger] stroke_order_state(s).0[i]) by {
            if i < prev.len() {
                let k = choose|k: int| 0 <= k < s.len() - 1 && s.drop_last()[k] == prev[i];
                assert(s[k] == prev[i]);
            } else {
                assert(s[s.len() - 1] == s.last());
            }
        }
    }
}

/// The current challenge is the largest page number, and never below 0.
pub proof fn law_latest_is_maximum(stems: Seq<Seq<char>>)
    ensures
        latest_challenge(stems) matches Some(m) ==> m >= 0 && forall|i: int| 0 <= i < stems.len() ==> ((#[trigger] parsed_i32(stems[i])) matches Some(n) && n <= m),
    decreases stems.len(),
{
    if stems.len() > 0 {
        law_latest_is_maximum(stems.drop_last());
        if latest_challenge(stems) is Some {
            assert forall|i: int| 0 <= i < stems.len() implies ((#[trigger] parsed_i32(stems[i])) matches Some(n) && n <= latest_challenge(stems).unwrap()) by {
                if i < stems.len() - 1 {
                    assert(stems.drop_last()[i] == stems[i]);
                }
            }
        }
    }
}

/// After a submission the author has a submission; it holds the new images
/// after the ones it had and keeps its other keys (a new one has the author's
/// name under `username`), and every other submission is unchanged.
pub proof fn law_submission_keeps_others(data: Seq<SubmissionView>, author: AuthorView, names: Seq<Seq<char>>)
    ensures
        ({
            let id = nat_text(author.id as nat);
            let after = updated_submissions(data, author, names);
            &&& first_index(submission_ids(after), id) matches Some(i)
            &&& after[i].images == (match first_index(submission_ids(data), id) {
                Some(j) => data[j].images + texts(names),
                None => texts(names),
            })
            &&& after[i].others == (match first_index(submission_ids(data), id) {
                Some(j) => data[j].others,
                None => seq![("username"@, JsonView::Text(author.name + "#"@ + nat_text(author.discriminator as nat)))],
            })
            &&& forall|k: int| 0 <= k < data.len() && (first_index(submission_ids(data), id) != Some(k)) ==> after[k] == data[k]
            &&& data.len() <= after.len() <= data.len() + 1
        }),
{
    let id = nat_text(author.id as nat);
    let after = updated_submissions(data, author, names);
    lemma_first_index_facts(submission_ids(data), id);
    match first_index(submission_ids(data), id) {
        Some(j) => {
            assert forall|k: int| 0 <= k < j implies submission_ids(after)[k] != id by {
                lemma_first_index_before(submission_ids(data), id, k);
            }
            crate::text::lemma_first_index_found(submission_ids(after), id, j);
        },
        None => {
            let n = data.len() as int;
            assert forall|k: int| 0 <= k < n implies submission_ids(after)[k] != id by {
                lemma_first_index_none(submission_ids(data), id, k);
            }
            crate::text::lemma_first_index_found(submission_ids(after), id, n);
        },
    }
}

proof fn lemma_first_index_facts(keys: Seq<Seq<char>>, key: Seq<char>)
    ensures
        first_index(keys, key) matches Some(i) ==> 0 <= i < keys.len() && keys[i] == key,
    decreases keys.len(),
{
    if keys.len() > 0 {
        lemma_first_index_facts(keys.drop_first(), key);
    }
}

proof fn lemma_first_index_before(keys: Seq<Seq<char>>, key: Seq<char>, k: int)
    requires
        first_index(keys, key) matches Some(i) && 0 <= k < i,
    ensures
        keys[k] != key,
    decreases keys.len(),
{
    lemma_first_index_facts(keys, key);
    assert(keys[0] != key);
    if k > 0 {
        lemma_first_index_before(keys.drop_first(), key, k - 1);
        assert(keys.drop_first()[k - 1] == keys[k]);
    }
}

proof fn lemma_first_index_none(keys: Seq<Seq<char>>, key: Seq<char>, k: int)
    requires
        first_index(keys, key) is None,
        0 <= k < keys.len(),
    ensures
        keys[k] != key,
    decreases keys.len(),
{
    if k > 0 {
        lemma_first_index_none(keys.drop_first(), key, k - 1);
    }
}


/// How often an entry occurs in a list of counts.
pub open spec fn entry_occurrences(s: Seq<(Seq<char>, u32)>, e: (Seq<char>, u32)) -> nat
    decreases s.len(),
{
    if s.len() == 0 {
        0
    } else {
        entry_occurrences(s.drop_last(), e) + (if s.last() == e {
            1nat
        } else {
            0nat
        })
    }
}

proof fn lemma_occurrences_within_count(s: Seq<(Seq<char>, u32)>, e: (Seq<char>, u32))
    ensures
        entry_occurrences(s, e) == entry_occurrences(with_count(s, e.1), e),
    decreases s.len(),
{
    if s.len() > 0 {
        lemma_occurrences_within_count(s.drop_last(), e);
        if s.last().1 == e.1 {
            assert(with_count(s, e.1).drop_last() =~= with_count(s.drop_last(), e.1));
        }
    }
}

/// Ordering the submitters neither loses nor adds an entry: where every count
/// keeps its entries in order, every entry occurs as often as before.
pub proof fn law_ranking_keeps_entries(input: Seq<(Seq<char>, u32)>, ranked: Seq<(Seq<char>, u32)>, e: (Seq<char>, u32))
    requires
        forall|count: u32| #[trigger] with_count(ranked, count) == with_count(input, count),
    ensures
        entry_occurrences(ranked, e) == entry_occurrences(input, e),
{
    lemma_occurrences_within_count(ranked, e);
    lemma_occurrences_within_count(input, e);
    assert(with_count(ranked, e.1) == with_count(input, e.1));
}

/// The sum of the counts of the given ids.
pub open spec fn total_of(ids: Seq<Seq<char>>, keys: Seq<Seq<char>>) -> nat
    decreases keys.len(),
{
    if keys.len() == 0 {
        0
    } else {
        total_of(ids, keys.drop_last()) + occurrences(ids, keys.last())
    }
}

proof fn lemma_total_push_absent(ids: Seq<Seq<char>>, x: Seq<char>, keys: Seq<Seq<char>>)
    requires
        !keys.contains(x),
    ensures
        total_of(ids.push(x), keys) == total_of(ids, keys),
    decreases keys.len(),
{
    if keys.len() > 0 {
        assert(keys.drop_last().len() < keys.len());
        assert forall|k: int| 0 <= k < keys.drop_last().len() implies keys.drop_last()[k] != x by {
            assert(keys[k] == keys.drop_last()[k]);
        }
        lemma_total_push_absent(ids, x, keys.drop_last());
        assert(keys[keys.len() - 1] != x);
        assert(ids.push(x).drop_last() =~= ids);
    }
}

proof fn lemma_total_push_present(ids: Seq<Seq<char>>, x: Seq<char>, keys: Seq<Seq<char>>)
    requires
        keys.contains(x),
        keys.no_duplicates(),
    ensures
        total_of(ids.push(x), keys) == total_of(ids, keys) + 1,
    decreases keys.len(),
{
    assert(ids.push(x).drop_last() =~= ids);
    if keys.last() == x {
        assert(!keys.drop_last().contains(x)) by {
            if keys.drop_last().contains(x) {
                let k = choose|k: int| 0 <= k < keys.drop_last().len() && keys.drop_last()[k] == x;
                assert(keys[k] == keys[keys.len() - 1]);
            }
        }
        lemma_total_push_absent(ids, x, keys.drop_last());
    } else {
        let k = choose|k: int| 0 <= k < keys.len() && keys[k] == x;
        assert(keys.drop_last()[k] == x);
        assert(keys.drop_last().no_duplicates()) by {
            assert forall|a: int, b: int| 0 <= a < b < keys.drop_last().len() implies keys.drop_last()[a] != keys.drop_last()[b] by {
                assert(keys[a] == keys.drop_last()[a]);
                assert(keys[b] == keys.drop_last()[b]);
            }
        }
        lemma_total_push_present(ids, x, keys.drop_last());
    }
}

/// Every submission is counted once: the counts of the distinct submitters
/// add up to the number of submissions.
pub proof fn law_counts_add_up(ids: Seq<Seq<char>>)
    ensures
        total_of(ids, distinct(ids)) == ids.len(),
    decreases ids.len(),
{
    if ids.len() > 0 {
        let prev = ids.drop_last();
        let x = ids.last();
        law_counts_add_up(prev);
        crate::leaderboard::lemma_distinct_no_duplicates(prev);
        assert(prev.push(x) =~= ids);
        let d = distinct(prev);
        if d.contains(x) {
            lemma_total_push_present(prev, x, d);
        } else {
            lemma_total_push_absent(prev, x, d);
            assert(d.push(x).drop_last() =~= d);
            assert(occurrences(ids, x) == occurrences(prev, x) + 1);
            assert(occurrences(prev, x) == 0) by {
                lemma_absent_no_occurrence(prev, x);
            }
        }
    }
}

proof fn lemma_absent_no_occurrence(ids: Seq<Seq<char>>, x: Seq<char>)
    requires
        !distinct(ids).contains(x),
    ensures
        occurrences(ids, x) == 0,
    decreases ids.len(),
{
    if ids.len() > 0 {
        let d = distinct(ids.drop_last());
        if d.contains(x) {
            let k = choose|k: int| 0 <= k < d.len() && d[k] == x;
            assert(distinct(ids)[k] == x);
        }
        lemma_absent_no_occurrence(ids.drop_last(), x);
        if ids.last() == x {
            if !d.contains(x) {
                assert(distinct(ids)[d.len() as int] == x);
            }
        }
    }
}


/// Two names that differ only in the number before the dot differ.
proof fn lemma_numbered_names_differ(a: Seq<char>, m1: nat, m2: nat, b1: Seq<char>, b2: Seq<char>)
    requires
        m1 != m2,
    ensures
        a + nat_text(m1) + "."@ + b1 != a + nat_text(m2) + "."@ + b2,
{
    lemma_nat_text_digits(m1);
    lemma_nat_text_digits(m2);
    reveal_strlit(".");
    let t1 = nat_text(m1);
    let t2 = nat_text(m2);
    let x = a + t1 + "."@ + b1;
    let y = a + t2 + "."@ + b2;
    let l = a.len() as int;
    if x == y {
        if t1.len() == t2.len() {
            assert(t1 =~= x.subrange(l, l + t1.len()));
            assert(t2 =~= y.subrange(l, l + t2.len()));
        } else if t1.len() < t2.len() {
            assert(x[l + t1.len()] == '.');
            assert(y[l + t1.len()] == t2[t1.len() as int]);
            assert(is_digit(t2[t1.len() as int]));
        } else {
            assert(y[l + t2.len()] == '.');
            assert(x[l + t2.len()] == t1[t2.len() as int]);
            assert(is_digit(t1[t2.len() as int]));
        }
    }
}

/// The name planned for the `j`-th image taken from the attachments.
spec fn image_name_form(data: Seq<SubmissionView>, author: AuthorView, j: int, ext: Seq<char>) -> Seq<char> {
    let id = nat_text(author.id as nat);
    let stem = "-"@ + slug(author.name) + "-"@ + nat_text(author.discriminator as nat);
    match first_index(submission_ids(data), id) {
        Some(i) => nat_text((i + 1) as nat) + stem + "-"@ + nat_text((data[i].images.len() + j + 1) as nat) + "."@ + ext,
        None => nat_text((data.len() + 1) as nat) + stem + (if j == 0 {
            ""@
        } else {
            "-"@ + nat_text((j + 1) as nat)
        }) + "."@ + ext,
    }
}

proof fn lemma_image_name_form(data: Seq<SubmissionView>, author: AuthorView, acc: Seq<(int, Seq<char>)>, j: int)
    requires
        0 <= j < acc.len(),
    ensures
        planned_names(data, author, acc)[j] == image_name_form(data, author, j, acc[j].1),
{
    let n = planned_names(data, author, acc)[j];
    match first_index(submission_ids(data), nat_text(author.id as nat)) {
        Some(i) => {
            assert(n =~= image_name_form(data, author, j, acc[j].1));
        },
        None => {
            reveal_strlit("");
            assert(n =~= image_name_form(data, author, j, acc[j].1));
        },
    }
}

proof fn lemma_image_names_differ(data: Seq<SubmissionView>, author: AuthorView, j1: int, j2: int, e1: Seq<char>, e2: Seq<char>)
    requires
        0 <= j1 < j2,
    ensures
        image_name_form(data, author, j1, e1) != image_name_form(data, author, j2, e2),
{
    let stem = "-"@ + slug(author.name) + "-"@ + nat_text(author.discriminator as nat);
    let x = image_name_form(data, author, j1, e1);
    let y = image_name_form(data, author, j2, e2);
    match first_index(submission_ids(data), nat_text(author.id as nat)) {
        Some(i) => {
            let a = nat_text((i + 1) as nat) + stem + "-"@;
            assert(x =~= a + nat_text((data[i].images.len() + j1 + 1) as nat) + "."@ + e1);
            assert(y =~= a + nat_text((data[i].images.len() + j2 + 1) as nat) + "."@ + e2);
            lemma_numbered_names_differ(a, (data[i].images.len() + j1 + 1) as nat, (data[i].images.len() + j2 + 1) as nat, e1, e2);
        },
        None => {
            let a0 = nat_text((data.len() + 1) as nat) + stem;
            reveal_strlit(".");
            reveal_strlit("-");
            reveal_strlit("");
            if j1 == 0 {
                assert(x =~= a0 + "."@ + e1);
                assert(y =~= a0 + "-"@ + nat_text((j2 + 1) as nat) + "."@ + e2);
                assert(x[a0.len() as int] == '.');
                assert(y[a0.len() as int] == '-');
            } else {
                let a = a0 + "-"@;
                assert(x =~= a + nat_text((j1 + 1) as nat) + "."@ + e1);
                assert(y =~= a + nat_text((j2 + 1) as nat) + "."@ + e2);
                lemma_numbered_names_differ(a, (j1 + 1) as nat, (j2 + 1) as nat, e1, e2);
            }
        },
    }
}

/// How the images taken from a submission's attachments are named: by the
/// place of the author's submission (from 1), the author's slug and
/// discriminator, and a number. An author who already has a submission at
/// index `i` with `k` images gets the numbers `k + 1`, `k + 2`, ... in the
/// order of the attachments taken; a new submission goes after the others,
/// its first image without a number, the next ones numbered from 2. No two
/// images get the same name, so no two are saved to the same file.
pub proof fn law_submission_image_names(
    data: Seq<SubmissionView>,
    author: AuthorView,
    types: Seq<Option<Seq<char>>>,
    dir: Seq<char>,
)
    ensures
        ({
            let acc = accepted(types);
            let names = planned_names(data, author, acc);
            let id = nat_text(author.id as nat);
            let stem = "-"@ + slug(author.name) + "-"@ + nat_text(author.discriminator as nat);
            &&& names.len() == acc.len()
            &&& first_index(submission_ids(data), id) matches Some(i) ==> forall|j: int| 0 <= j < acc.len()
                ==> #[trigger] names[j] == nat_text((i + 1) as nat) + stem + "-"@ + nat_text(
                (data[i].images.len() + j + 1) as nat,
            ) + "."@ + acc[j].1
            &&& first_index(submission_ids(data), id) is None ==> forall|j: int| 0 <= j < acc.len()
                ==> #[trigger] names[j] == nat_text((data.len() + 1) as nat) + stem + (if j == 0 {
                ""@
            } else {
                "-"@ + nat_text((j + 1) as nat)
            }) + "."@ + acc[j].1
            &&& forall|j1: int, j2: int| 0 <= j1 < j2 < acc.len() ==> #[trigger] names[j1] != #[trigger] names[j2]
            &&& forall|j1: int, j2: int| 0 <= j1 < j2 < acc.len() ==> dir + "/"@ + names[j1] != dir + "/"@ + names[j2]
        }),
{
    let acc = accepted(types);
    let names = planned_names(data, author, acc);
    assert forall|j: int| 0 <= j < acc.len() implies #[trigger] names[j] == image_name_form(data, author, j, acc[j].1) by {
        lemma_image_name_form(data, author, acc, j);
    }
    assert forall|j1: int, j2: int| 0 <= j1 < j2 < acc.len() implies #[trigger] names[j1] != #[trigger] names[j2] by {
        lemma_image_names_differ(data, author, j1, j2, acc[j1].1, acc[j2].1);
    }
    assert forall|j1: int, j2: int| 0 <= j1 < j2 < acc.len() implies dir + "/"@ + names[j1] != dir + "/"@ + names[j2] by {
        assert(names[j1] != names[j2]);
        let p = dir + "/"@;
        if p + names[j1] == p + names[j2] {
            assert(names[j1] =~= (p + names[j1]).skip(p.len() as int));
            assert(names[j2] =~= (p + names[j2]).skip(p.len() as int));
        }
    }
}

/// The characters of a text taken each once, in the order they first appear,
/// are exactly its characters, none twice.
pub proof fn law_first_occurrences(s: Seq<char>)
    ensures
        first_occurrences(s).no_duplicates(),
        forall|c: char| first_occurrences(s).contains(c) <==> s.contains(c),
    decreases s.len(),
{
    if s.len() > 0 {
        law_first_occurrences(s.drop_last());
        let d = first_occurrences(s.drop_last());
        let fo = first_occurrences(s);
        assert forall|c: char| s.contains(c) <==> (s.drop_last().contains(c) || c == s.last()) by {
            if s.contains(c) {
                let k = choose|k: int| 0 <= k < s.len() && s[k] == c;
                if k < s.len() - 1 {
                    assert(s.drop_last()[k] == c);
                }
            }
            if s.drop_last().contains(c) {
                let k = choose|k: int| 0 <= k < s.len() - 1 && s.drop_last()[k] == c;
                assert(s[k] == c);
            }
            if c == s.last() {
                assert(s[s.len() - 1] == c);
            }
        }
        if !d.contains(s.last()) {
            assert(fo == d.push(s.last()));
            assert forall|c: char| fo.contains(c) <==> (d.contains(c) || c == s.last()) by {
                if fo.contains(c) {
                    let k = choose|k: int| 0 <= k < fo.len() && fo[k] == c;
                    if k < d.len() {
                        assert(d[k] == c);
                    }
                }
                if d.contains(c) {
                    let k = choose|k: int| 0 <= k < d.len() && d[k] == c;
                    assert(fo[k] == c);
                }
                if c == s.last() {
                    assert(fo[d.len() as int] == c);
                }
            }
        }
    }
}

/// The report on a text names how many of its distinct characters some list
/// holds, with a line for each, and counts every other distinct character
/// once as skipped: the found and the skipped add up to the number of
/// distinct characters of the text.
pub proof fn law_report_counts_each_character_once(lists: Seq<CategoryView>, input: Seq<char>)
    ensures
        ({
            let d = first_occurrences(input);
            let found = found_kanji(lists, d);
            let skipped = (d.len() - found.len()) as nat;
            &&& d.no_duplicates()
            &&& forall|c: char| d.contains(c) <==> input.contains(c)
            &&& found.len() <= d.len()
            &&& found.no_duplicates()
            &&& forall|c: char| #[trigger] found.contains(c) <==> (input.contains(c) && kanji_info(lists, c).len() > 0)
            &&& report_text(lists, input) == "Found "@ + nat_text(found.len()) + " kanji"@ + (if found.len() == 0 {
                "."@
            } else {
                ":"@
            }) + "\n"@ + info_lines(lists, found) + (if skipped > 0 {
                "Skipped "@ + nat_text(skipped) + " character"@ + (if skipped == 1 {
                    ""@
                } else {
                    "s"@
                }) + "."@
            } else {
                Seq::empty()
            })
        }),
{
    law_first_occurrences(input);
    law_report_counts(lists, first_occurrences(input));
    lemma_found_kanji(lists, first_occurrences(input));
}

proof fn lemma_found_kanji(lists: Seq<CategoryView>, d: Seq<char>)
    requires
        d.no_duplicates(),
    ensures
        found_kanji(lists, d).no_duplicates(),
        forall|c: char| #[trigger] found_kanji(lists, d).contains(c) <==> (d.contains(c) && kanji_info(lists, c).len() > 0),
    decreases d.len(),
{
    if d.len() > 0 {
        let p = d.drop_last();
        assert(p.no_duplicates()) by {
            assert forall|a: int, b: int| 0 <= a < b < p.len() implies p[a] != p[b] by {
                assert(p[a] == d[a] && p[b] == d[b]);
            }
        }
        lemma_found_kanji(lists, p);
        let f = found_kanji(lists, p);
        let g = found_kanji(lists, d);
        assert(!p.contains(d.last())) by {
            if p.contains(d.last()) {
                let k = choose|k: int| 0 <= k < p.len() && p[k] == d.last();
                assert(d[k] == d[d.len() - 1]);
            }
        }
        assert forall|c: char| d.contains(c) <==> (p.contains(c) || c == d.last()) by {
            if d.contains(c) {
                let k = choose|k: int| 0 <= k < d.len() && d[k] == c;
                if k < d.len() - 1 {
                    assert(p[k] == c);
                }
            }
            if p.contains(c) {
                let k = choose|k: int| 0 <= k < p.len() && p[k] == c;
                assert(d[k] == c);
            }
            if c == d.last() {
                assert(d[d.len() - 1] == c);
            }
        }
        if kanji_info(lists, d.last()).len() > 0 {
            assert(g == f.push(d.last()));
            assert forall|c: char| g.contains(c) <==> (f.contains(c) || c == d.last()) by {
                if g.contains(c) {
                    let k = choose|k: int| 0 <= k < g.len() && g[k] == c;
                    if k < f.len() {
                        assert(f[k] == c);
                    }
                }
                if f.contains(c) {
                    let k = choose|k: int| 0 <= k < f.len() && f[k] == c;
                    assert(g[k] == c);
                }
                if c == d.last() {
                    assert(g[f.len() as int] == c);
                }
            }
            assert forall|a: int, b: int| 0 <= a < b < g.len() implies g[a] != g[b] by {
                if b == f.len() {
                    assert(f.contains(g[a]));
                }
            }
        } else {
            assert(g == f);
        }
    }
}

/// The characters of a text that are no white space, each once, in the order
/// they first appear.
pub open spec fn visible_characters(s: Seq<char>) -> Seq<char>
    decreases s.len(),
{
    if s.len() == 0 {
        Seq::empty()
    } else {
        let d = visible_characters(s.drop_last());
        if white_space(s.last()) || d.contains(s.last()) {
            d
        } else {
            d.push(s.last())
        }
    }
}

/// The stroke order command shows the first four distinct characters of the
/// text that are no white space (all of them when there are at most four), in
/// order of first appearance; it warns exactly when some character, of any
/// kind, comes after the fourth one shown.
pub proof fn law_stroke_order_shows_the_first_four(s: Seq<char>)
    ensures
        stroke_order_state(s).0 == (if visible_characters(s).len() <= MAX_DIAGRAMS {
            visible_characters(s)
        } else {
            visible_characters(s).take(MAX_DIAGRAMS as int)
        }),
        stroke_order_state(s).1 == (s.len() > 0 && visible_characters(s.drop_last()).len() >= MAX_DIAGRAMS),
    decreases s.len(),
{
    if s.len() > 0 {
        let p = s.drop_last();
        law_stroke_order_shows_the_first_four(p);
        let v = visible_characters(p);
        if p.len() > 0 {
            assert(visible_characters(p.drop_last()).len() <= v.len());
        }
        let w = visible_characters(s);
        if v.len() >= MAX_DIAGRAMS {
            assert(w.take(MAX_DIAGRAMS as int) =~= v.take(MAX_DIAGRAMS as int));
        }
    }
}

/// The characters that the stroke order command chooses from are those of the
/// text that are no white space, each once.
pub proof fn law_visible_characters(s: Seq<char>)
    ensures
        visible_characters(s).no_duplicates(),
        forall|c: char| #[trigger] visible_characters(s).contains(c) <==> (s.contains(c) && !white_space(c)),
    decreases s.len(),
{
    if s.len() > 0 {
        law_visible_characters(s.drop_last());
        let d = visible_characters(s.drop_last());
        let v = visible_characters(s);
        assert forall|c: char| s.contains(c) <==> (s.drop_last().contains(c) || c == s.last()) by {
            if s.contains(c) {
                let k = choose|k: int| 0 <= k < s.len() && s[k] == c;
                if k < s.len() - 1 {
                    assert(s.drop_last()[k] == c);
                }
            }
            if s.drop_last().contains(c) {
                let k = choose|k: int| 0 <= k < s.len() - 1 && s.drop_last()[k] == c;
                assert(s[k] == c);
            }
            if c == s.last() {
                assert(s[s.len() - 1] == c);
            }
        }
        if !(white_space(s.last()) || d.contains(s.last())) {
            assert(v == d.push(s.last()));
            assert forall|c: char| v.contains(c) <==> (d.contains(c) || c == s.last()) by {
                if v.contains(c) {
                    let k = choose|k: int| 0 <= k < v.len() && v[k] == c;
                    if k < d.len() {
                        assert(d[k] == c);
                    }
                }
                if d.contains(c) {
                    let k = choose|k: int| 0 <= k < d.len() && d[k] == c;
                    assert(v[k] == c);
                }
                if c == s.last() {
                    assert(v[d.len() as int] == c);
                }
            }
        } else {
            assert(v == d);
        }
        assert forall|c: char| v.contains(c) <==> (s.contains(c) && !white_space(c)) by {
            assert(s.contains(c) <==> (s.drop_last().contains(c) || c == s.last()));
            assert(d.contains(c) <==> (s.drop_last().contains(c) && !white_space(c)));
        }
    }
}

proof fn lemma_rows_prefix(top: Seq<(Seq<char>, u32)>, users: Seq<LeaderboardUser>, k: nat, n: nat)
    requires
        k <= n,
    ensures
        leaderboard_rows(top, users, k).is_prefix_of(leaderboard_rows(top, users, n)),
    decreases n,
{
    if k < n {
        lemma_rows_prefix(top, users, k, (n - 1) as nat);
        let a = leaderboard_rows(top, users, k);
        let b = leaderboard_rows(top, users, (n - 1) as nat);
        assert(a =~= leaderboard_rows(top, users, n).subrange(0, a.len() as int)) by {
            assert(b =~= leaderboard_rows(top, users, n).subrange(0, b.len() as int));
        }
    }
}

/// The rows of the leaderboard come in order of place: after the rows of the
/// first `k - 1` submitters comes the row of place `k`, which shows the
/// number `k`, the `k`-th user's avatar, profile link, name and
/// discriminator, and the `k`-th submitter's count.
pub proof fn law_leaderboard_places(top: Seq<(Seq<char>, u32)>, users: Seq<LeaderboardUser>, k: nat, n: nat)
    requires
        1 <= k <= n,
    ensures
        ({
            let i = k - 1;
            let row = "<tr><td>"@ + nat_text(k) + "</td><td><img src=\""@ + users[i].avatar@
                + "\" alt=\"avatar\"></td><td><a href=\""@ + "https://discord.com/users/"@ + top[i].0
                + "\" target=\"_blank\">"@ + users[i].name@ + "<span class=\"muted\">#"@
                + nat_text(users[i].discriminator as nat) + "</span></a></td><td>"@ + nat_text(top[i].1 as nat)
                + "</td></tr>"@;
            (leaderboard_rows(top, users, (k - 1) as nat) + row).is_prefix_of(leaderboard_rows(top, users, n))
        }),
{
    lemma_rows_prefix(top, users, k, n);
    let i = k - 1;
    let row = "<tr><td>"@ + nat_text(k) + "</td><td><img src=\""@ + users[i].avatar@
        + "\" alt=\"avatar\"></td><td><a href=\""@ + "https://discord.com/users/"@ + top[i].0
        + "\" target=\"_blank\">"@ + users[i].name@ + "<span class=\"muted\">#"@
        + nat_text(users[i].discriminator as nat) + "</span></a></td><td>"@ + nat_text(top[i].1 as nat)
        + "</td></tr>"@;
    assert(leaderboard_rows(top, users, k) =~= leaderboard_rows(top, users, (k - 1) as nat) + row);
}

/// The attachments taken from a submission are exactly the PNG and JPEG
/// images, in the order they were attached, each once: a PNG is saved with
/// the extension `png`, a JPEG with `jpg`.
pub proof fn law_accepted_attachments(types: Seq<Option<Seq<char>>>)
    ensures
        ({
            let acc = accepted(types);
            &&& forall|j: int| 0 <= j < acc.len() ==> 0 <= (#[trigger] acc[j]).0 < types.len() && (
                (types[acc[j].0] == Some("image/png"@) && acc[j].1 == "png"@)
                || (types[acc[j].0] == Some("image/jpeg"@) && acc[j].1 == "jpg"@))
            &&& forall|j1: int, j2: int| 0 <= j1 < j2 < acc.len() ==> (#[trigger] acc[j1]).0 < (#[trigger] acc[j2]).0
            &&& forall|p: int| 0 <= p < types.len() && (#[trigger] types[p] == Some("image/png"@) || types[p] == Some(
                "image/jpeg"@,
            )) ==> exists|j: int| 0 <= j < acc.len() && (#[trigger] acc[j]).0 == p
        }),
    decreases types.len(),
{
    if types.len() > 0 {
        let t = types.drop_last();
        law_accepted_attachments(t);
        let prev = accepted(t);
        let acc = accepted(types);
        assert forall|j: int| 0 <= j < prev.len() implies types[(#[trigger] prev[j]).0] == t[prev[j].0] by {}
        assert forall|p: int| 0 <= p < types.len() && (#[trigger] types[p] == Some("image/png"@) || types[p] == Some(
            "image/jpeg"@,
        )) implies exists|j: int| 0 <= j < acc.len() && (#[trigger] acc[j]).0 == p by {
            if p < t.len() {
                assert(t[p] == types[p]);
                let j = choose|j: int| 0 <= j < prev.len() && (#[trigger] prev[j]).0 == p;
                assert(acc[j] == prev[j]);
            } else {
                assert(acc[prev.len() as int].0 == p);
            }
        }
    }
}

} // verus!
