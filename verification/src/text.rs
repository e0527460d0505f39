//! Rendering numbers as text and building strings piece by piece.
use vstd::prelude::*;

verus! {

/// The character of a digit below sixteen, with lower-case letters past nine.
pub open spec fn digit_char(d: nat) -> char {
    if d < 10 {
        (d + 48) as char
    } else {
        (d + 87) as char
    }
}

/// Decimal digits of a natural number, most significant first, no leading zeros.
pub open spec fn nat_text(n: nat) -> Seq<char>
    decreases n,
{
    if n < 10 {
        seq![digit_char(n)]
    } else {
        nat_text(n / 10).push(digit_char(n % 10))
    }
}

/// Decimal text of an integer: a minus sign before negative values.
pub open spec fn int_text(i: int) -> Seq<char> {
    if i < 0 {
        seq!['-'] + nat_text((-i) as nat)
    } else {
        nat_text(i as nat)
    }
}

/// Lower-case hexadecimal digits of a natural number, no leading zeros.
pub open spec fn hex_text(n: nat) -> Seq<char>
    decreases n,
{
    if n < 16 {
        seq![digit_char(n)]
    } else {
        hex_text(n / 16).push(digit_char(n % 16))
    }
}

/// Calls `String::push`, which appends the character to the end of the
/// string, as its documentation says.
#[verifier::external_body]
pub(crate) fn push_char(s: &mut String, c: char)
    ensures
        final(s)@ == old(s)@.push(c),
{
    s.push(c);
}

/// Appends a string slice to a string.
pub fn push_str(s: &mut String, t: &str)
    ensures
        final(s)@ == old(s)@ + t@,
{
    s.append(t);
}

fn digit(d: u128) -> (c: char)
    requires
        d < 16,
    ensures
        c == digit_char(d as nat),
{
    if d < 10 {
        ((d as u8) + 48u8) as char
    } else {
        ((d as u8) + 87u8) as char
    }
}

/// Appends the decimal digits of `n`.
pub fn push_nat(s: &mut String, n: u128)
    ensures
        final(s)@ == old(s)@ + nat_text(n as nat),
    decreases n,
{
    if n >= 10 {
        push_nat(s, n / 10);
    }
    push_char(s, digit(n % 10));
}

/// Appends the lower-case hexadecimal digits of `n`.
pub fn push_hex(s: &mut String, n: u128)
    ensures
        final(s)@ == old(s)@ + hex_text(n as nat),
    decreases n,
{
    if n >= 16 {
        push_hex(s, n / 16);
    }
    push_char(s, digit(n % 16));
}

/// Appends the decimal text of a signed integer.
pub fn push_int(s: &mut String, i: i64)
    requires
        i > i64::MIN,
    ensures
        final(s)@ == old(s)@ + int_text(i as int),
{
    if i < 0 {
        push_char(s, '-');
        push_nat(s, (-i) as u128);
        assert(final(s)@ =~= old(s)@ + int_text(i as int));
    } else {
        push_nat(s, i as u128);
    }
}

/// Decimal text of an unsigned number as a new string.
pub fn u64_text(n: u64) -> (r: String)
    ensures
        r@ == nat_text(n as nat),
{
    let mut r = String::new();
    push_nat(&mut r, n as u128);
    assert(r@ =~= nat_text(n as nat));
    r
}


/// Items joined with a separator between each two neighbours.
pub open spec fn join(parts: Seq<Seq<char>>, sep: Seq<char>) -> Seq<char>
    decreases parts.len(),
{
    if parts.len() == 0 {
        Seq::empty()
    } else if parts.len() == 1 {
        parts[0]
    } else {
        join(parts.drop_last(), sep) + sep + parts.last()
    }
}

/// Whether a string holds a character.
pub fn contains_char(s: &str, c: char) -> (r: bool)
    ensures
        r == s@.contains(c),
{
    for x in it: s.chars()
        invariant
            it.seq() == s@,
            forall|k: int| 0 <= k < it.index() ==> s@[k] != c,
    {
        if x == c {
            return true;
        }
    }
    false
}

/// Calls `String::pop`, which removes the last character and gives it back,
/// or gives `None` and leaves the string as it is when it is empty, as its
/// documentation says.
#[verifier::external_body]
pub(crate) fn pop_char(s: &mut String) -> (r: Option<char>)
    ensures
        old(s)@.len() == 0 ==> r is None && final(s)@ == old(s)@,
        old(s)@.len() > 0 ==> r == Some(old(s)@.last()) && final(s)@ == old(s)@.drop_last(),
{
    s.pop()
}

/// A copy of a string slice as an owned string.
pub fn to_string(s: &str) -> (r: String)
    ensures
        r@ == s@,
{
    s.to_owned()
}

/// The first position holding `key`.
pub open spec fn first_index(keys: Seq<Seq<char>>, key: Seq<char>) -> Option<int>
    decreases keys.len(),
{
    if keys.len() == 0 {
        None
    } else if keys[0] == key {
        Some(0)
    } else {
        match first_index(keys.drop_first(), key) {
            Some(i) => Some(i + 1),
            None => None,
        }
    }
}

pub proof fn lemma_first_index_found(keys: Seq<Seq<char>>, key: Seq<char>, i: int)
    requires
        0 <= i < keys.len(),
        keys[i] == key,
        forall|k: int| 0 <= k < i ==> keys[k] != key,
    ensures
        first_index(keys, key) == Some(i),
    decreases i,
{
    if i > 0 {
        lemma_first_index_found(keys.drop_first(), key, i - 1);
    }
}

pub proof fn lemma_first_index_absent(keys: Seq<Seq<char>>, key: Seq<char>)
    requires
        forall|k: int| 0 <= k < keys.len() ==> keys[k] != key,
    ensures
        first_index(keys, key) is None,
    decreases keys.len(),
{
    if keys.len() > 0 {
        assert(keys[0] != key);
        lemma_first_index_absent(keys.drop_first(), key);
    }
}

/// The value under the first key equal to `key`, as a JSON object lookup gives it.
pub open spec fn lookup<V>(entries: Seq<(Seq<char>, V)>, key: Seq<char>) -> Option<V>
    decreases entries.len(),
{
    if entries.len() == 0 {
        None
    } else if entries[0].0 == key {
        Some(entries[0].1)
    } else {
        lookup(entries.drop_first(), key)
    }
}

/// The keys of a list of entries.
pub open spec fn entry_keys<V>(entries: Seq<(Seq<char>, V)>) -> Seq<Seq<char>> {
    entries.map_values(|e: (Seq<char>, V)| e.0)
}

/// Whether one key comes before another: the order of `String` and `str`,
/// character by character, by code point, a prefix first.
pub open spec fn key_less(a: Seq<char>, b: Seq<char>) -> bool
    decreases a.len(),
{
    if b.len() == 0 {
        false
    } else if a.len() == 0 {
        true
    } else if a[0] == b[0] {
        key_less(a.drop_first(), b.drop_first())
    } else {
        (a[0] as int) < (b[0] as int)
    }
}

/// The keys come in increasing order, each once: the order in which a JSON
/// object of `serde_json` holds its keys.
pub open spec fn keys_sorted<V>(entries: Seq<(Seq<char>, V)>) -> bool {
    forall|i: int, j: int| 0 <= i < j < entries.len() ==> key_less(#[trigger] entries[i].0, #[trigger] entries[j].0)
}

/// Where a new key goes: before the first key that comes after it.
pub open spec fn place_of(keys: Seq<Seq<char>>, key: Seq<char>) -> int
    decreases keys.len(),
{
    if keys.len() == 0 {
        0
    } else if key_less(key, keys[0]) {
        0
    } else {
        place_of(keys.drop_first(), key) + 1
    }
}

/// The entries with `value` under `key`: in place of the first entry with
/// that key, or added before the first key that comes after it, as inserting
/// into a JSON object does.
pub open spec fn set_entry<V>(entries: Seq<(Seq<char>, V)>, key: Seq<char>, value: V) -> Seq<(Seq<char>, V)> {
    match first_index(entry_keys(entries), key) {
        Some(i) => entries.update(i, (key, value)),
        None => entries.insert(place_of(entry_keys(entries), key), (key, value)),
    }
}

pub proof fn lemma_place_of_bounds(keys: Seq<Seq<char>>, key: Seq<char>)
    ensures
        0 <= place_of(keys, key) <= keys.len(),
        forall|k: int| 0 <= k < place_of(keys, key) ==> !key_less(key, #[trigger] keys[k]),
        place_of(keys, key) < keys.len() ==> key_less(key, keys[place_of(keys, key)]),
    decreases keys.len(),
{
    if keys.len() > 0 && !key_less(key, keys[0]) {
        lemma_place_of_bounds(keys.drop_first(), key);
        assert forall|k: int| 0 <= k < place_of(keys, key) implies !key_less(key, #[trigger] keys[k]) by {
            if k > 0 {
                assert(keys[k] == keys.drop_first()[k - 1]);
            }
        }
    }
}

pub proof fn lemma_place_of_found(keys: Seq<Seq<char>>, key: Seq<char>, j: int)
    requires
        0 <= j <= keys.len(),
        forall|k: int| 0 <= k < j ==> !key_less(key, #[trigger] keys[k]),
        j < keys.len() ==> key_less(key, keys[j]),
    ensures
        place_of(keys, key) == j,
    decreases j,
{
    if j > 0 {
        assert(!key_less(key, keys[0]));
        assert forall|k: int| 0 <= k < j - 1 implies !key_less(key, #[trigger] keys.drop_first()[k]) by {
            assert(keys.drop_first()[k] == keys[k + 1]);
        }
        lemma_place_of_found(keys.drop_first(), key, j - 1);
    }
}

/// No key comes before itself; of two different keys, exactly one comes first.
pub proof fn lemma_key_less_total(a: Seq<char>, b: Seq<char>)
    ensures
        !key_less(a, a),
        !(key_less(a, b) && key_less(b, a)),
        a != b ==> key_less(a, b) || key_less(b, a),
    decreases a.len(),
{
    if a.len() > 0 {
        lemma_key_less_total(a.drop_first(), a.drop_first());
    }
    if a.len() > 0 && b.len() > 0 && a[0] == b[0] {
        lemma_key_less_total(a.drop_first(), b.drop_first());
        if a != b {
            assert(a.drop_first() != b.drop_first()) by {
                if a.drop_first() == b.drop_first() {
                    assert(a =~= seq![a[0]] + a.drop_first());
                    assert(b =~= seq![b[0]] + b.drop_first());
                }
            }
        }
    }
    if a.len() == 0 && b.len() == 0 {
        assert(a =~= b);
    }
}

/// The order of keys is transitive.
pub proof fn lemma_key_less_trans(a: Seq<char>, b: Seq<char>, c: Seq<char>)
    requires
        key_less(a, b),
        key_less(b, c),
    ensures
        key_less(a, c),
    decreases a.len(),
{
    if a.len() > 0 && a[0] == b[0] && b[0] == c[0] {
        lemma_key_less_trans(a.drop_first(), b.drop_first(), c.drop_first());
    }
}

/// Setting an entry keeps the keys in increasing order, each once.
pub proof fn lemma_set_entry_sorted<V>(entries: Seq<(Seq<char>, V)>, key: Seq<char>, value: V)
    requires
        keys_sorted(entries),
    ensures
        keys_sorted(set_entry(entries, key, value)),
{
    let keys = entry_keys(entries);
    let after = set_entry(entries, key, value);
    lemma_lookup_first_index(entries, key);
    match first_index(keys, key) {
        Some(i) => {
            assert forall|a: int, b: int| 0 <= a < b < after.len() implies key_less(#[trigger] after[a].0, #[trigger] after[b].0) by {
                assert(after[a].0 == entries[a].0 && after[b].0 == entries[b].0);
            }
        },
        None => {
            let p = place_of(keys, key);
            lemma_place_of_bounds(keys, key);
            lemma_first_index_none_absent(keys, key);
            assert forall|k: int| 0 <= k < p implies key_less(#[trigger] entries[k].0, key) by {
                assert(keys[k] == entries[k].0);
                lemma_key_less_total(key, entries[k].0);
            }
            assert forall|k: int| p <= k < entries.len() implies key_less(key, #[trigger] entries[k].0) by {
                assert(keys[p] == entries[p].0);
                if k > p {
                    lemma_key_less_trans(key, entries[p].0, entries[k].0);
                }
            }
            assert forall|a: int, b: int| 0 <= a < b < after.len() implies key_less(#[trigger] after[a].0, #[trigger] after[b].0) by {
                if b < p {
                } else if b == p {
                    assert(after[b].0 == key);
                } else if a < p {
                    assert(after[b].0 == entries[b - 1].0);
                    lemma_key_less_trans(entries[a].0, key, entries[b - 1].0);
                } else if a == p {
                    assert(after[b].0 == entries[b - 1].0);
                } else {
                    assert(after[a].0 == entries[a - 1].0 && after[b].0 == entries[b - 1].0);
                }
            }
        },
    }
}

pub proof fn lemma_first_index_none_absent(keys: Seq<Seq<char>>, key: Seq<char>)
    requires
        first_index(keys, key) is None,
    ensures
        forall|k: int| 0 <= k < keys.len() ==> #[trigger] keys[k] != key,
    decreases keys.len(),
{
    if keys.len() > 0 {
        lemma_first_index_none_absent(keys.drop_first(), key);
        assert forall|k: int| 0 <= k < keys.len() implies #[trigger] keys[k] != key by {
            if k > 0 {
                assert(keys[k] == keys.drop_first()[k - 1]);
            }
        }
    }
}

/// A lookup finds the entry at the first position of its key.
pub proof fn lemma_lookup_first_index<V>(entries: Seq<(Seq<char>, V)>, key: Seq<char>)
    ensures
        lookup(entries, key) == (match first_index(entry_keys(entries), key) {
            Some(i) => Some(entries[i].1),
            None => None,
        }),
        first_index(entry_keys(entries), key) matches Some(i) ==> 0 <= i < entries.len()
            && entries[i].0 == key,
    decreases entries.len(),
{
    if entries.len() > 0 {
        assert(entry_keys(entries).drop_first() =~= entry_keys(entries.drop_first()));
        lemma_lookup_first_index(entries.drop_first(), key);
    }
}

/// A lookup in entries with one more entry, whose key is in none of them,
/// finds that entry's value under its key, and what it found before under
/// any other key.
pub proof fn lemma_lookup_insert<V>(entries: Seq<(Seq<char>, V)>, p: int, key: Seq<char>, value: V, other: Seq<char>)
    requires
        0 <= p <= entries.len(),
        forall|k: int| 0 <= k < entries.len() ==> #[trigger] entries[k].0 != key,
    ensures
        lookup(entries.insert(p, (key, value)), key) == Some(value),
        other != key ==> lookup(entries.insert(p, (key, value)), other) == lookup(entries, other),
    decreases entries.len(),
{
    let after = entries.insert(p, (key, value));
    if p == 0 {
        assert(after.drop_first() =~= entries);
    } else {
        assert(after[0] == entries[0]);
        assert(after.drop_first() =~= entries.drop_first().insert(p - 1, (key, value)));
        assert forall|k: int| 0 <= k < entries.drop_first().len() implies #[trigger] entries.drop_first()[k].0 != key by {
            assert(entries.drop_first()[k] == entries[k + 1]);
        }
        lemma_lookup_insert(entries.drop_first(), p - 1, key, value, other);
    }
}

/// After `set_entry`, a lookup of the key finds the new value, and a lookup
/// of any other key finds what it found before.
pub proof fn lemma_set_entry<V>(entries: Seq<(Seq<char>, V)>, key: Seq<char>, value: V, other: Seq<char>)
    ensures
        lookup(set_entry(entries, key, value), key) == Some(value),
        other != key ==> lookup(set_entry(entries, key, value), other) == lookup(entries, other),
    decreases entries.len(),
{
    lemma_lookup_first_index(entries, key);
    match first_index(entry_keys(entries), key) {
        Some(i) => lemma_set_entry_update(entries, key, value, other),
        None => {
            lemma_first_index_none_absent(entry_keys(entries), key);
            assert forall|k: int| 0 <= k < entries.len() implies #[trigger] entries[k].0 != key by {
                assert(entry_keys(entries)[k] == entries[k].0);
            }
            lemma_place_of_bounds(entry_keys(entries), key);
            lemma_lookup_insert(entries, place_of(entry_keys(entries), key), key, value, other);
        },
    }
}

proof fn lemma_set_entry_update<V>(entries: Seq<(Seq<char>, V)>, key: Seq<char>, value: V, other: Seq<char>)
    requires
        first_index(entry_keys(entries), key) is Some,
    ensures
        lookup(entries.update(first_index(entry_keys(entries), key).unwrap(), (key, value)), key) == Some(value),
        other != key ==> lookup(entries.update(first_index(entry_keys(entries), key).unwrap(), (key, value)), other)
            == lookup(entries, other),
    decreases entries.len(),
{
    lemma_lookup_first_index(entries, key);
    let i = first_index(entry_keys(entries), key).unwrap();
    let after = entries.update(i, (key, value));
    if entries[0].0 == key {
        assert(entry_keys(entries)[0] == key);
        assert(i == 0);
        assert(after.drop_first() =~= entries.drop_first());
    } else {
        assert(entry_keys(entries)[0] != key);
        assert(entry_keys(entries).drop_first() =~= entry_keys(entries.drop_first()));
        lemma_set_entry_update(entries.drop_first(), key, value, other);
        assert(after[0] == entries[0]);
        assert(after.drop_first() =~= entries.drop_first().update(i - 1, (key, value)));
    }
}

/// The view of a list of entries keyed by strings.
pub open spec fn keyed_view<V: View>(entries: Seq<(String, V)>) -> Seq<(Seq<char>, V::V)> {
    entries.map_values(|e: (String, V)| (e.0@, e.1@))
}

/// The position of the first entry with this key.
pub fn find_key<V: View>(entries: &Vec<(String, V)>, key: &String) -> (r: Option<usize>)
    ensures
        r matches Some(i) ==> first_index(entry_keys(keyed_view(entries@)), key@) == Some(i as int)
            && i < entries@.len(),
        r is None ==> first_index(entry_keys(keyed_view(entries@)), key@) is None,
{
    let ghost keys = entry_keys(keyed_view(entries@));
    for k in 0..entries.len()
        invariant
            keys == entry_keys(keyed_view(entries@)),
            keys.len() == entries@.len(),
            forall|m: int| 0 <= m < k ==> keys[m] != key@,
    {
        assert(keys[k as int] == entries@[k as int].0@);
        if entries[k].0 == *key {
            proof {
                lemma_first_index_found(keys, key@, k as int);
            }
            return Some(k);
        }
    }
    proof {
        lemma_first_index_absent(keys, key@);
    }
    None
}

/// The characters of a string, one by one.
pub fn chars_of(s: &str) -> (v: Vec<char>)
    ensures
        v@ == s@,
{
    let mut v: Vec<char> = Vec::new();
    for c in it: s.chars()
        invariant
            it.seq() == s@,
            v@ == s@.take(it.index() as int),
    {
        assert(s@.take(it.index() + 1) =~= s@.take(it.index() as int).push(c));
        v.push(c);
    }
    assert(s@.take(s@.len() as int) =~= s@);
    v
}

/// Whether the first characters come before the second in the order of keys.
pub fn chars_less(a: &Vec<char>, b: &Vec<char>) -> (r: bool)
    ensures
        r == key_less(a@, b@),
{
    let mut i: usize = 0;
    assert(a@.skip(0) =~= a@ && b@.skip(0) =~= b@);
    while i < a.len() && i < b.len()
        invariant
            i <= a.len(),
            i <= b.len(),
            key_less(a@, b@) == key_less(a@.skip(i as int), b@.skip(i as int)),
        decreases a.len() - i,
    {
        if a[i] != b[i] {
            return a[i] < b[i];
        }
        assert(a@.skip(i as int).drop_first() =~= a@.skip(i + 1));
        assert(b@.skip(i as int).drop_first() =~= b@.skip(i + 1));
        i = i + 1;
    }
    i < b.len()
}

/// Where a new key goes among the entries: before the first key that comes
/// after it.
pub fn place_of_key<V: View>(entries: &Vec<(String, V)>, key: &String) -> (p: usize)
    ensures
        p == place_of(entry_keys(keyed_view(entries@)), key@),
{
    let ghost keys = entry_keys(keyed_view(entries@));
    let key_chars = chars_of(key.as_str());
    for k in 0..entries.len()
        invariant
            keys == entry_keys(keyed_view(entries@)),
            keys.len() == entries@.len(),
            key_chars@ == key@,
            forall|m: int| 0 <= m < k ==> !key_less(key@, #[trigger] keys[m]),
    {
        assert(keys[k as int] == entries@[k as int].0@);
        let other = chars_of(entries[k].0.as_str());
        if chars_less(&key_chars, &other) {
            proof {
                lemma_place_of_found(keys, key@, k as int);
            }
            return k;
        }
    }
    proof {
        lemma_place_of_found(keys, key@, keys.len() as int);
    }
    entries.len()
}

/// Stores `value` under `key`: in place of the entry at `position`, the
/// first with that key, or, where there is none, before the first key that
/// comes after it.
pub fn put_at<V: View>(entries: &mut Vec<(String, V)>, position: Option<usize>, key: String, value: V)
    requires
        position matches Some(i) ==> first_index(entry_keys(keyed_view(old(entries)@)), key@) == Some(i as int)
            && i < old(entries)@.len(),
        position is None ==> first_index(entry_keys(keyed_view(old(entries)@)), key@) is None,
    ensures
        keyed_view(final(entries)@) == set_entry(keyed_view(old(entries)@), key@, value@),
{
    match position {
        Some(i) => {
            entries.remove(i);
            entries.insert(i, (key, value));
        },
        None => {
            let place = place_of_key(entries, &key);
            proof {
                lemma_place_of_bounds(entry_keys(keyed_view(entries@)), key@);
            }
            entries.insert(place, (key, value));
        },
    }
    assert(keyed_view(entries@) =~= set_entry(keyed_view(old(entries)@), key@, value@));
}

/// Stores `value` under `key`, in place of the first entry with that key, or
/// before the first key that comes after it.
pub fn put_key<V: View>(entries: &mut Vec<(String, V)>, key: String, value: V)
    ensures
        keyed_view(final(entries)@) == set_entry(keyed_view(old(entries)@), key@, value@),
{
    let position = find_key(entries, &key);
    put_at(entries, position, key, value);
}

/// The value under the first entry with this key.
pub fn lookup_key<'a, V: View>(entries: &'a Vec<(String, V)>, key: &String) -> (r: Option<&'a V>)
    ensures
        match r {
            Some(v) => lookup(keyed_view(entries@), key@) == Some(v@),
            None => lookup(keyed_view(entries@), key@) is None,
        },
{
    let position = find_key(entries, key);
    proof {
        lemma_lookup_first_index(keyed_view(entries@), key@);
    }
    match position {
        Some(i) => {
            assert(keyed_view(entries@)[i as int] == (entries@[i as int].0@, entries@[i as int].1@));
            Some(&entries[i].1)
        },
        None => None,
    }
}

} // verus!
