//! The leaderboard: who submitted to the most challenges.
use vstd::prelude::*;
use crate::parse::{parse_u64, parsed_u64};
use crate::submissions::{Submission, SubmissionView, submission_ids, submissions_view};
use crate::text::{nat_text, push_nat, push_str, to_string};

verus! {

/// The user ids of all submissions, challenge after challenge.
pub open spec fn all_ids(challenges: Seq<Seq<SubmissionView>>) -> Seq<Seq<char>>
    decreases challenges.len(),
{
    if challenges.len() == 0 {
        Seq::empty()
    } else {
        all_ids(challenges.drop_last()) + submission_ids(challenges.last())
    }
}

/// How often an id occurs.
pub open spec fn occurrences(ids: Seq<Seq<char>>, id: Seq<char>) -> nat
    decreases ids.len(),
{
    if ids.len() == 0 {
        0
    } else {
        occurrences(ids.drop_last(), id) + (if ids.last() == id {
            1nat
        } else {
            0nat
        })
    }
}

/// The ids, each once, in the order they first occur.
pub open spec fn distinct(ids: Seq<Seq<char>>) -> Seq<Seq<char>>
    decreases ids.len(),
{
    if ids.len() == 0 {
        Seq::empty()
    } else {
        let d = distinct(ids.drop_last());
        if d.contains(ids.last()) {
            d
        } else {
            d.push(ids.last())
        }
    }
}

pub open spec fn challenges_view(challenges: Seq<Vec<Submission>>) -> Seq<Seq<SubmissionView>> {
    challenges.map_values(|c: Vec<Submission>| submissions_view(c@))
}

pub open spec fn counts_view(counts: Seq<(String, u32)>) -> Seq<(Seq<char>, u32)> {
    counts.map_values(|p: (String, u32)| (p.0@, p.1))
}

proof fn lemma_occurrences_concat(a: Seq<Seq<char>>, b: Seq<Seq<char>>, id: Seq<char>)
    ensures
        occurrences(a + b, id) == occurrences(a, id) + occurrences(b, id),
    decreases b.len(),
{
    if b.len() == 0 {
        assert(a + b =~= a);
    } else {
        lemma_occurrences_concat(a, b.drop_last(), id);
        assert((a + b).drop_last() =~= a + b.drop_last());
    }
}

pub(crate) proof fn lemma_distinct_no_duplicates(ids: Seq<Seq<char>>)
    ensures
        distinct(ids).no_duplicates(),
    decreases ids.len(),
{
    if ids.len() > 0 {
        lemma_distinct_no_duplicates(ids.drop_last());
    }
}

proof fn lemma_occurring_is_distinct(ids: Seq<Seq<char>>, id: Seq<char>)
    ensures
        occurrences(ids, id) > 0 ==> distinct(ids).contains(id),
        distinct(ids).contains(id) ==> occurrences(ids, id) > 0,
    decreases ids.len(),
{
    if ids.len() > 0 {
        lemma_occurring_is_distinct(ids.drop_last(), id);
        let d = distinct(ids.drop_last());
        if occurrences(ids.drop_last(), id) > 0 {
            let k = choose|k: int| 0 <= k < d.len() && d[k] == id;
            assert(distinct(ids)[k] == id);
        }
        if id == ids.last() && !d.contains(id) {
            assert(distinct(ids)[d.len() as int] == id);
        }
        if !d.contains(ids.last()) {
            if distinct(ids).contains(id) && id != ids.last() {
                let k = choose|k: int| 0 <= k < distinct(ids).len() && distinct(ids)[k] == id;
                assert(d[k] == id);
            }
            if id == ids.last() {
                assert(distinct(ids)[d.len() as int] == id);
            }
        }
    }
}

proof fn lemma_all_ids_prefix(views: Seq<Seq<SubmissionView>>, i: int)
    requires
        0 <= i <= views.len(),
    ensures
        forall|id: Seq<char>| #[trigger] occurrences(all_ids(views.take(i)), id) <= occurrences(all_ids(views), id),
    decreases views.len() - i,
{
    if i < views.len() {
        lemma_all_ids_prefix(views, i + 1);
        assert(views.take(i + 1).drop_last() =~= views.take(i));
        assert forall|id: Seq<char>| #[trigger] occurrences(all_ids(views.take(i)), id) <= occurrences(all_ids(views), id) by {
            lemma_occurrences_concat(all_ids(views.take(i)), submission_ids(views.take(i + 1).last()), id);
            assert(all_ids(views.take(i + 1)) == all_ids(views.take(i)) + submission_ids(views.take(i + 1).last()));
            assert(occurrences(all_ids(views.take(i + 1)), id) <= occurrences(all_ids(views), id));
        }
    } else {
        assert(views.take(i) =~= views);
    }
}

fn find_count(counts: &Vec<(String, u32)>, id: &String) -> (r: Option<usize>)
    ensures
        r matches Some(k) ==> k < counts@.len() && counts@[k as int].0@ == id@,
        r is None ==> forall|q: int| 0 <= q < counts@.len() ==> (#[trigger] counts@[q]).0@ != id@,
{
    for k in 0..counts.len()
        invariant
            forall|q: int| 0 <= q < k ==> (#[trigger] counts@[q]).0@ != id@,
    {
        if counts[k].0 == *id {
            return Some(k);
        }
    }
    None
}

/// For each user id, in the order of first submission, the number of
/// submissions: how often the id occurs over all challenges. `None` when an
/// id occurs more often than a `u32` counts.
pub fn count_submissions(challenges: &Vec<Vec<Submission>>) -> (counts: Option<Vec<(String, u32)>>)
    ensures
        ({
            let ids = all_ids(challenges_view(challenges@));
            &&& counts is None <==> exists|id: Seq<char>| occurrences(ids, id) > u32::MAX
            &&& counts matches Some(counts) ==> {
                &&& counts@.len() == distinct(ids).len()
                &&& forall|k: int| 0 <= k < counts@.len() ==> (#[trigger] counts@[k]).0@ == distinct(ids)[k]
                    && counts@[k].1 == occurrences(ids, distinct(ids)[k])
            }
        }),
{
    let ghost views = challenges_view(challenges@);
    let ghost all = all_ids(views);
    let mut counts: Vec<(String, u32)> = Vec::new();
    let ghost mut seen: Seq<Seq<char>> = Seq::empty();
    let n = challenges.len();
    assert(views.take(0) =~= Seq::<Seq<SubmissionView>>::empty());
    for c in 0..n
        invariant
            n == challenges@.len(),
            views == challenges_view(challenges@),
            views.len() == n,
            all == all_ids(views),
            seen == all_ids(views.take(c as int)),
            counts@.len() == distinct(seen).len(),
            forall|k: int| 0 <= k < counts@.len() ==> (#[trigger] counts@[k]).0@ == distinct(seen)[k]
                && counts@[k].1 == occurrences(seen, distinct(seen)[k]),
    {
        proof {
            lemma_all_ids_prefix(views, c + 1);
            assert(views.take(c + 1).drop_last() =~= views.take(c as int));
            assert(views.take(c + 1).last() == views[c as int]);
        }
        let submissions = &challenges[c];
        let ghost sub_ids = submission_ids(submissions_view(submissions@));
        assert(views[c as int] == submissions_view(submissions@));
        let ghost start = seen;
        assert(start + sub_ids == all_ids(views.take(c + 1)));
        assert(sub_ids.take(0) =~= Seq::<Seq<char>>::empty());
        assert(start + sub_ids.take(0) =~= start);
        let m = submissions.len();
        for s in 0..m
            invariant
                m == submissions@.len(),
                sub_ids == submission_ids(submissions_view(submissions@)),
                sub_ids.len() == m,
                seen == start + sub_ids.take(s as int),
                start + sub_ids == all_ids(views.take(c + 1)),
                all == all_ids(views),
                views == challenges_view(challenges@),
                forall|id: Seq<char>| #[trigger] occurrences(all_ids(views.take(c + 1)), id) <= occurrences(all, id),
                counts@.len() == distinct(seen).len(),
                forall|k: int| 0 <= k < counts@.len() ==> (#[trigger] counts@[k]).0@ == distinct(seen)[k]
                    && counts@[k].1 == occurrences(seen, distinct(seen)[k]),
        {
            let id = &submissions[s].id;
            assert(sub_ids[s as int] == id@);
            let ghost before = seen;
            proof {
                seen = seen.push(id@);
                assert(seen =~= start + sub_ids.take(s + 1));
                assert(seen.drop_last() =~= before);
                lemma_distinct_no_duplicates(before);
                lemma_occurrences_concat(seen, sub_ids.skip(s + 1), id@);
                assert(seen + sub_ids.skip(s + 1) =~= start + sub_ids);
                assert(occurrences(all_ids(views.take(c + 1)), id@) <= occurrences(all, id@));
                lemma_occurring_is_distinct(before, id@);
            }
            match find_count(&counts, id) {
                Some(k) => {
                    let name = counts[k].0.clone();
                    let count = counts[k].1;
                    assert(distinct(before)[k as int] == id@);
                    if count == u32::MAX {
                        assert(occurrences(all, id@) > u32::MAX);
                        return None;
                    }
                    assert(distinct(seen) == distinct(before));
                    counts.set(k, (name, count + 1));
                    assert forall|q: int| 0 <= q < counts@.len() implies (#[trigger] counts@[q]).0@ == distinct(seen)[q]
                        && counts@[q].1 == occurrences(seen, distinct(seen)[q]) by {
                        if q != k {
                            assert(distinct(before)[q] != id@);
                        }
                    }
                },
                None => {
                    assert(!distinct(before).contains(id@)) by {
                        if distinct(before).contains(id@) {
                            let q = choose|q: int| 0 <= q < distinct(before).len() && distinct(before)[q] == id@;
                            assert(counts@[q].0@ == distinct(before)[q]);
                        }
                    }
                    assert(distinct(seen) == distinct(before).push(id@));
                    counts.push((id.clone(), 1));
                    assert forall|q: int| 0 <= q < counts@.len() implies (#[trigger] counts@[q]).0@ == distinct(seen)[q]
                        && counts@[q].1 == occurrences(seen, distinct(seen)[q]) by {
                        if q < counts@.len() - 1 {
                            assert(distinct(before).contains(distinct(before)[q]));
                            assert(distinct(before)[q] != id@);
                        }
                    }
                },
            }
        }
        assert(sub_ids.take(m as int) =~= sub_ids);
    }
    assert(views.take(n as int) =~= views);
    assert forall|id: Seq<char>| occurrences(all, id) <= u32::MAX by {
        lemma_occurring_is_distinct(all, id);
        if occurrences(all, id) > 0 {
            let k = choose|k: int| 0 <= k < distinct(all).len() && distinct(all)[k] == id;
            assert(counts@[k].1 == occurrences(all, id));
        }
    }
    Some(counts)
}

/// The entries with this count, in order.
pub open spec fn with_count(s: Seq<(Seq<char>, u32)>, count: u32) -> Seq<(Seq<char>, u32)>
    decreases s.len(),
{
    if s.len() == 0 {
        Seq::empty()
    } else if s.last().1 == count {
        with_count(s.drop_last(), count).push(s.last())
    } else {
        with_count(s.drop_last(), count)
    }
}

/// The counts never grow along the list.
pub open spec fn descending(s: Seq<(Seq<char>, u32)>) -> bool {
    forall|i: int, j: int| 0 <= i < j < s.len() ==> s[i].1 >= s[j].1
}

proof fn lemma_with_count_concat(a: Seq<(Seq<char>, u32)>, b: Seq<(Seq<char>, u32)>, count: u32)
    ensures
        with_count(a + b, count) == with_count(a, count) + with_count(b, count),
    decreases b.len(),
{
    if b.len() == 0 {
        assert(a + b =~= a);
        assert(with_count(a, count) + with_count(b, count) =~= with_count(a, count));
    } else {
        lemma_with_count_concat(a, b.drop_last(), count);
        assert((a + b).drop_last() =~= a + b.drop_last());
        assert((a + b).last() == b.last());
        if b.last().1 == count {
            assert(with_count(a + b, count) =~= with_count(a, count) + with_count(b, count));
        }
    }
}

proof fn lemma_with_count_none(s: Seq<(Seq<char>, u32)>, count: u32)
    requires
        forall|k: int| 0 <= k < s.len() ==> (#[trigger] s[k]).1 != count,
    ensures
        with_count(s, count) == Seq::<(Seq<char>, u32)>::empty(),
    decreases s.len(),
{
    if s.len() > 0 {
        assert(s[s.len() - 1].1 != count);
        lemma_with_count_none(s.drop_last(), count);
    }
}

proof fn lemma_insert_with_count(r: Seq<(Seq<char>, u32)>, p: int, e: (Seq<char>, u32), count: u32)
    requires
        0 <= p <= r.len(),
        forall|k: int| p <= k < r.len() ==> (#[trigger] r[k]).1 < e.1,
    ensures
        with_count(r.insert(p, e), count) == (if count == e.1 {
            with_count(r, count).push(e)
        } else {
            with_count(r, count)
        }),
{
    let a = r.take(p);
    let b = r.skip(p);
    assert(r.insert(p, e) =~= (a + seq![e]) + b);
    assert(r =~= a + b);
    lemma_with_count_concat(a + seq![e], b, count);
    lemma_with_count_concat(a, seq![e], count);
    lemma_with_count_concat(a, b, count);
    assert(seq![e].drop_last() =~= Seq::<(Seq<char>, u32)>::empty());
    assert(seq![e].last() == e);
    assert(with_count(Seq::<(Seq<char>, u32)>::empty(), count) =~= Seq::<(Seq<char>, u32)>::empty());
    if count == e.1 {
        assert forall|k: int| 0 <= k < b.len() implies (#[trigger] b[k]).1 != count by {
            assert(b[k] == r[p + k]);
        }
        lemma_with_count_none(b, count);
        assert(with_count(r.insert(p, e), count) =~= with_count(r, count).push(e));
    } else {
        assert(with_count(seq![e], count) =~= Seq::<(Seq<char>, u32)>::empty());
        assert(with_count(r.insert(p, e), count) =~= with_count(r, count));
    }
}

/// The submitters ordered by count, the most first; those with equal counts
/// keep their order.
pub fn rank_submitters(counts: Vec<(String, u32)>) -> (ranked: Vec<(String, u32)>)
    ensures
        ranked@.len() == counts@.len(),
        descending(counts_view(ranked@)),
        forall|count: u32| #[trigger] with_count(counts_view(ranked@), count) == with_count(counts_view(counts@), count),
{
    let ghost input = counts_view(counts@);
    let mut ranked: Vec<(String, u32)> = Vec::new();
    let mut counts = counts;
    let ghost mut taken: Seq<(Seq<char>, u32)> = Seq::empty();
    while counts.len() > 0
        invariant
            input == taken + counts_view(counts@),
            ranked@.len() == taken.len(),
            descending(counts_view(ranked@)),
            forall|count: u32| #[trigger] with_count(counts_view(ranked@), count) == with_count(taken, count),
        decreases counts@.len(),
    {
        let entry = counts.remove(0);
        let ghost e = (entry.0@, entry.1);
        let ghost r = counts_view(ranked@);
        let ghost old_taken = taken;
        proof {
            taken = taken.push(e);
            assert(input =~= taken + counts_view(counts@));
        }
        let mut p: usize = 0;
        while p < ranked.len() && ranked[p].1 >= entry.1
            invariant
                p <= ranked@.len(),
                r == counts_view(ranked@),
                e == (entry.0@, entry.1),
                forall|k: int| 0 <= k < p ==> (#[trigger] r[k]).1 >= e.1,
            decreases ranked@.len() - p,
        {
            p = p + 1;
        }
        proof {
            assert(forall|k: int| p <= k < r.len() ==> (#[trigger] r[k]).1 < e.1) by {
                if p < r.len() {
                    assert(r[p as int].1 < e.1);
                }
            }
        }
        ranked.insert(p, entry);
        proof {
            let nr = counts_view(ranked@);
            assert(nr =~= r.insert(p as int, e));
            assert(taken.drop_last() =~= old_taken);
            assert forall|count: u32| #[trigger] with_count(nr, count) == with_count(taken, count) by {
                lemma_insert_with_count(r, p as int, e, count);
                assert(taken.last() == e);
                assert(with_count(r, count) == with_count(old_taken, count));
            }
            assert forall|a: int, b: int| 0 <= a < b < nr.len() implies nr[a].1 >= nr[b].1 by {
                if b < p {
                } else if b == p {
                    assert(nr[a] == r[a]);
                } else if a < p {
                    assert(nr[a] == r[a]);
                    assert(nr[b] == r[b - 1]);
                } else if a == p {
                    assert(nr[b] == r[b - 1]);
                } else {
                    assert(nr[a] == r[a - 1]);
                    assert(nr[b] == r[b - 1]);
                }
            }
        }
    }
    assert(taken =~= input);
    ranked
}


/// How many submitters the leaderboard shows.
pub const LEADERBOARD_LENGTH: usize = 5;

/// The first submitters of the ranking can be shown: there are enough of
/// them, and their ids are numbers.
pub open spec fn top_ready(ranked: Seq<(Seq<char>, u32)>) -> bool {
    &&& ranked.len() >= LEADERBOARD_LENGTH
    &&& forall|k: int| 0 <= k < LEADERBOARD_LENGTH ==> (#[trigger] parsed_u64(ranked[k].0)) is Some
}

/// Whether the leaderboard can be made from this ranking.
pub fn is_top_ready(ranked: &Vec<(String, u32)>) -> (r: bool)
    ensures
        r == top_ready(counts_view(ranked@)),
{
    if ranked.len() < LEADERBOARD_LENGTH {
        return false;
    }
    for k in 0..LEADERBOARD_LENGTH
        invariant
            ranked@.len() >= LEADERBOARD_LENGTH,
            forall|q: int| 0 <= q < k ==> (#[trigger] parsed_u64(counts_view(ranked@)[q].0)) is Some,
    {
        assert(counts_view(ranked@)[k as int].0 == ranked@[k as int].0@);
        if parse_u64(ranked[k].0.as_str()).is_none() {
            return false;
        }
    }
    true
}

/// The user ids of the first submitters, as numbers, to look the users up.
pub fn leaderboard_ids(ranked: &Vec<(String, u32)>) -> (ids: Vec<u64>)
    requires
        top_ready(counts_view(ranked@)),
    ensures
        ids@.len() == LEADERBOARD_LENGTH,
        forall|k: int| 0 <= k < LEADERBOARD_LENGTH ==> Some(#[trigger] ids@[k]) == parsed_u64(counts_view(ranked@)[k].0),
{
    let mut ids: Vec<u64> = Vec::new();
    for k in 0..LEADERBOARD_LENGTH
        invariant
            top_ready(counts_view(ranked@)),
            ids@.len() == k,
            forall|q: int| 0 <= q < k ==> Some(#[trigger] ids@[q]) == parsed_u64(counts_view(ranked@)[q].0),
    {
        assert(counts_view(ranked@)[k as int].0 == ranked@[k as int].0@);
        assert(parsed_u64(counts_view(ranked@)[k as int].0) is Some);
        let id = match parse_u64(ranked[k].0.as_str()) {
            Some(v) => v,
            None => 0,
        };
        ids.push(id);
    }
    ids
}

/// What the leaderboard shows of a user, as Discord gives it.
pub struct LeaderboardUser {
    pub avatar: String,
    pub name: String,
    pub discriminator: u16,
}

/// One row of the leaderboard: place, avatar, linked name with discriminator, count.
pub open spec fn leaderboard_row(place: nat, avatar: Seq<char>, id: Seq<char>, name: Seq<char>, discriminator: u16, count: u32) -> Seq<char> {
    "<tr><td>"@ + nat_text(place) + "</td><td><img src=\""@ + avatar + "\" alt=\"avatar\"></td><td><a href=\""@
        + "https://discord.com/users/"@ + id + "\" target=\"_blank\">"@ + name + "<span class=\"muted\">#"@
        + nat_text(discriminator as nat) + "</span></a></td><td>"@ + nat_text(count as nat) + "</td></tr>"@
}

/// The rows of the first `k` submitters.
pub open spec fn leaderboard_rows(top: Seq<(Seq<char>, u32)>, users: Seq<LeaderboardUser>, k: nat) -> Seq<char>
    decreases k,
{
    if k == 0 {
        Seq::empty()
    } else {
        let i = (k - 1) as int;
        leaderboard_rows(top, users, (k - 1) as nat) + leaderboard_row(
            k,
            users[i].avatar@,
            top[i].0,
            users[i].name@,
            users[i].discriminator,
            top[i].1,
        )
    }
}

fn push_row(html: &mut String, place: usize, user: &LeaderboardUser, id: &String, count: u32)
    ensures
        final(html)@ == old(html)@ + leaderboard_row(place as nat, user.avatar@, id@, user.name@, user.discriminator, count),
{
    push_str(html, "<tr><td>");
    push_nat(html, place as u128);
    push_str(html, "</td><td><img src=\"");
    push_str(html, user.avatar.as_str());
    push_str(html, "\" alt=\"avatar\"></td><td><a href=\"");
    push_str(html, "https://discord.com/users/");
    push_str(html, id.as_str());
    push_str(html, "\" target=\"_blank\">");
    push_str(html, user.name.as_str());
    push_str(html, "<span class=\"muted\">#");
    push_nat(html, user.discriminator as u128);
    push_str(html, "</span></a></td><td>");
    push_nat(html, count as u128);
    push_str(html, "</td></tr>");
    assert(final(html)@ =~= old(html)@ + leaderboard_row(place as nat, user.avatar@, id@, user.name@, user.discriminator, count));
}

/// The leaderboard table of the first submitters, with what Discord gives of
/// each of them, in the same order.
pub fn leaderboard_html(ranked: &Vec<(String, u32)>, users: &Vec<LeaderboardUser>) -> (html: String)
    requires
        ranked@.len() >= LEADERBOARD_LENGTH,
        users@.len() == LEADERBOARD_LENGTH,
    ensures
        html@ == "<table id=\"leaderboard\">"@ + leaderboard_rows(counts_view(ranked@), users@, LEADERBOARD_LENGTH as nat)
            + "</table>"@,
{
    let mut html = to_string("<table id=\"leaderboard\">");
    for i in 0..LEADERBOARD_LENGTH
        invariant
            ranked@.len() >= LEADERBOARD_LENGTH,
            users@.len() == LEADERBOARD_LENGTH,
            html@ == "<table id=\"leaderboard\">"@ + leaderboard_rows(counts_view(ranked@), users@, i as nat),
    {
        push_row(&mut html, i + 1, &users[i], &ranked[i].0, ranked[i].1);
        assert(counts_view(ranked@)[i as int] == (ranked@[i as int].0@, ranked@[i as int].1));
        assert(html@ =~= "<table id=\"leaderboard\">"@ + leaderboard_rows(counts_view(ranked@), users@, (i + 1) as nat));
    }
    push_str(&mut html, "</table>");
    html
}

/// The avatar shown for a user: their own, or Discord's default one.
pub fn get_avatar(avatar_url: Option<String>, default_avatar_url: String) -> (r: String)
    ensures
        r@ == (match avatar_url {
            Some(a) => a@,
            None => default_avatar_url@,
        }),
{
    match avatar_url {
        Some(avatar_url) => avatar_url,
        None => default_avatar_url,
    }
}

} // verus!
