//! The kanji lists: which lists hold a kanji, and what the kanji commands answer.
use vstd::prelude::*;
use crate::random::random_index;
use crate::text::{
    contains_char, entry_keys, find_key, first_index, hex_text, join, keyed_view, lemma_first_index_absent,
    lemma_first_index_found, lookup, nat_text, pop_char, push_char, push_hex, push_nat, push_str, to_string,
};

verus! {

/// The characters of one version of a list: a single string, or one string per
/// named variant (such as a grade or a level), in key order.
pub enum Characters {
    Flat(String),
    Variants(Vec<(String, String)>),
}

/// One kanji list (such as JOYO): its versions, and which one is used.
pub struct Category {
    pub name: String,
    pub default_version: String,
    pub versions: Vec<(String, Characters)>,
}

/// All kanji lists, in key order.
pub struct KanjiLists {
    pub categories: Vec<Category>,
}

pub enum CharactersView {
    Flat(Seq<char>),
    Variants(Seq<(Seq<char>, Seq<char>)>),
}

pub struct CategoryView {
    pub name: Seq<char>,
    pub default_version: Seq<char>,
    pub versions: Seq<(Seq<char>, CharactersView)>,
}

pub open spec fn pair_view(p: (String, String)) -> (Seq<char>, Seq<char>) {
    (p.0@, p.1@)
}

impl View for Characters {
    type V = CharactersView;

    open spec fn view(&self) -> CharactersView {
        match self {
            Characters::Flat(s) => CharactersView::Flat(s@),
            Characters::Variants(v) => CharactersView::Variants(v@.map_values(|p: (String, String)| pair_view(p))),
        }
    }
}

pub open spec fn version_view(p: (String, Characters)) -> (Seq<char>, CharactersView) {
    (p.0@, p.1@)
}

impl View for Category {
    type V = CategoryView;

    open spec fn view(&self) -> CategoryView {
        CategoryView {
            name: self.name@,
            default_version: self.default_version@,
            versions: self.versions@.map_values(|p: (String, Characters)| version_view(p)),
        }
    }
}

impl View for KanjiLists {
    type V = Seq<CategoryView>;

    open spec fn view(&self) -> Seq<CategoryView> {
        self.categories@.map_values(|c: Category| c@)
    }
}

/// The characters of the version a category names as its default.
pub open spec fn default_characters(c: CategoryView) -> Option<CharactersView> {
    lookup(c.versions, c.default_version)
}

/// Every category names a default version that it has.
pub open spec fn lists_wf(lists: Seq<CategoryView>) -> bool {
    forall|i: int| 0 <= i < lists.len() ==> (#[trigger] default_characters(lists[i])) is Some
}

/// The names of the variants whose characters hold `kanji`, in order.
pub open spec fn variants_with(variants: Seq<(Seq<char>, Seq<char>)>, kanji: char) -> Seq<Seq<char>>
    decreases variants.len(),
{
    if variants.len() == 0 {
        Seq::empty()
    } else if variants.last().1.contains(kanji) {
        variants_with(variants.drop_last(), kanji).push(variants.last().0)
    } else {
        variants_with(variants.drop_last(), kanji)
    }
}

/// What one category adds to the information on a kanji: its name in bold,
/// with the matching variants in brackets, followed by a comma and a space.
pub open spec fn category_info(c: CategoryView, kanji: char) -> Seq<char> {
    match default_characters(c) {
        Some(CharactersView::Flat(list)) => if list.contains(kanji) {
            "**"@ + c.name + "**, "@
        } else {
            Seq::empty()
        },
        Some(CharactersView::Variants(vs)) => {
            let hits = variants_with(vs, kanji);
            if hits.len() == 0 {
                Seq::empty()
            } else {
                "**"@ + c.name + "** ("@ + join(hits, ", "@) + "), "@
            }
        },
        None => Seq::empty(),
    }
}

/// The pieces of all categories, one after the other.
pub open spec fn categories_info(lists: Seq<CategoryView>, kanji: char) -> Seq<char>
    decreases lists.len(),
{
    if lists.len() == 0 {
        Seq::empty()
    } else {
        categories_info(lists.drop_last(), kanji) + category_info(lists.last(), kanji)
    }
}

/// A text without its last two characters (or empty, if it is shorter).
pub open spec fn drop_last_two(s: Seq<char>) -> Seq<char> {
    if s.len() >= 2 {
        s.take(s.len() - 2)
    } else {
        Seq::empty()
    }
}

/// The information on a kanji: the lists that hold it, separated by commas.
pub open spec fn kanji_info(lists: Seq<CategoryView>, kanji: char) -> Seq<char> {
    drop_last_two(categories_info(lists, kanji))
}

proof fn lemma_lookup_step<V>(entries: Seq<(Seq<char>, V)>, key: Seq<char>, i: int)
    requires
        0 <= i < entries.len(),
        forall|k: int| 0 <= k < i ==> (#[trigger] entries[k]).0 != key,
    ensures
        lookup(entries, key) == lookup(entries.skip(i), key),
    decreases i,
{
    if i > 0 {
        assert(entries.drop_first().skip(i - 1) =~= entries.skip(i));
        assert(entries[0].0 != key);
        lemma_lookup_step(entries.drop_first(), key, i - 1);
    } else {
        assert(entries.skip(0) =~= entries);
    }
}

proof fn lemma_lookup_absent<V>(entries: Seq<(Seq<char>, V)>, key: Seq<char>)
    requires
        forall|k: int| 0 <= k < entries.len() ==> (#[trigger] entries[k]).0 != key,
    ensures
        lookup(entries, key) is None,
    decreases entries.len(),
{
    if entries.len() > 0 {
        assert(entries[0].0 != key);
        assert forall|k: int| 0 <= k < entries.drop_first().len() implies (#[trigger] entries.drop_first()[k]).0 != key by {
            assert(entries.drop_first()[k] == entries[k + 1]);
        }
        lemma_lookup_absent(entries.drop_first(), key);
    }
}

/// The characters of the default version of a category.
fn default_of(c: &Category) -> (r: &Characters)
    requires
        default_characters(c@) is Some,
    ensures
        Some(r@) == default_characters(c@),
{
    let n = c.versions.len();
    let mut i: usize = 0;
    while i < n
        invariant
            n == c.versions@.len(),
            0 <= i <= n,
            default_characters(c@) is Some,
            forall|k: int| 0 <= k < i ==> (#[trigger] c@.versions[k]).0 != c@.default_version,
        decreases n - i,
    {
        let ghost vs = c@.versions;
        assert(vs[i as int] == version_view(c.versions@[i as int]));
        if c.versions[i].0 == c.default_version {
            proof {
                lemma_lookup_step(vs, c@.default_version, i as int);
            }
            return &c.versions[i].1;
        }
        i = i + 1;
    }
    proof {
        lemma_lookup_absent(c@.versions, c@.default_version);
    }
    &c.versions[0].1
}


/// Each part followed by the separator.
pub open spec fn terminated(parts: Seq<Seq<char>>, sep: Seq<char>) -> Seq<char>
    decreases parts.len(),
{
    if parts.len() == 0 {
        Seq::empty()
    } else {
        terminated(parts.drop_last(), sep) + parts.last() + sep
    }
}

proof fn lemma_terminated_join(parts: Seq<Seq<char>>, sep: Seq<char>)
    requires
        parts.len() > 0,
    ensures
        terminated(parts, sep) == join(parts, sep) + sep,
    decreases parts.len(),
{
    if parts.len() > 1 {
        lemma_terminated_join(parts.drop_last(), sep);
        assert(terminated(parts, sep) =~= join(parts, sep) + sep);
    } else {
        assert(parts.drop_last().len() == 0);
        assert(terminated(parts.drop_last(), sep) == Seq::<char>::empty());
        assert(terminated(parts, sep) =~= join(parts, sep) + sep);
    }
}

fn push_category_info(info: &mut String, c: &Category, kanji: char)
    requires
        default_characters(c@) is Some,
    ensures
        final(info)@ == old(info)@ + category_info(c@, kanji),
{
    let ghost start = info@;
    match default_of(c) {
        Characters::Flat(list) => {
            if contains_char(list.as_str(), kanji) {
                push_str(info, "**");
                push_str(info, c.name.as_str());
                push_str(info, "**, ");
            }
            assert(info@ =~= start + category_info(c@, kanji));
        },
        Characters::Variants(vs) => {
            let ghost views = vs@.map_values(|p: (String, String)| pair_view(p));
            let ghost head = "**"@ + c@.name + "** ("@;
            let mut in_variants = false;
            let n = vs.len();
            for j in 0..n
                invariant
                    n == vs@.len(),
                    views == vs@.map_values(|p: (String, String)| pair_view(p)),
                    head == "**"@ + c@.name + "** ("@,
                    in_variants == (variants_with(views.take(j as int), kanji).len() > 0),
                    info@ == start + (if in_variants {
                        head + terminated(variants_with(views.take(j as int), kanji), ", "@)
                    } else {
                        Seq::empty()
                    }),
            {
                let ghost before = variants_with(views.take(j as int), kanji);
                assert(views.take(j + 1).drop_last() =~= views.take(j as int));
                assert(views.take(j + 1).last() == pair_view(vs@[j as int]));
                if contains_char(vs[j].1.as_str(), kanji) {
                    if !in_variants {
                        push_str(info, "**");
                        push_str(info, c.name.as_str());
                        push_str(info, "** (");
                        in_variants = true;
                    }
                    push_str(info, vs[j].0.as_str());
                    push_str(info, ", ");
                    assert(variants_with(views.take(j + 1), kanji) == before.push(vs@[j as int].0@));
                    assert(before.push(vs@[j as int].0@).drop_last() =~= before);
                    assert(terminated(before.push(vs@[j as int].0@), ", "@) == terminated(before, ", "@) + vs@[j as int].0@ + ", "@);
                    assert(before.len() == 0 ==> terminated(before, ", "@) == Seq::<char>::empty());
                    assert(info@ =~= start + head + terminated(variants_with(views.take(j + 1), kanji), ", "@));
                } else {
                    assert(variants_with(views.take(j + 1), kanji) == before);
                }
            }
            assert(views.take(n as int) =~= views);
            let ghost hits = variants_with(views, kanji);
            if in_variants {
                proof {
                    lemma_terminated_join(hits, ", "@);
                    reveal_strlit(", ");
                }
                pop_char(info);
                pop_char(info);
                assert(info@ =~= start + head + join(hits, ", "@));
                push_str(info, "), ");
            }
            assert(info@ =~= start + category_info(c@, kanji));
        },
    }
}

/// The lists that hold `kanji`: each list's name in bold, with the matching
/// variants in brackets where the list is split into variants, separated by
/// commas; empty when no list holds it.
pub fn get_kanji_info(lists: &KanjiLists, kanji: char) -> (info: String)
    requires
        lists_wf(lists@),
    ensures
        info@ == kanji_info(lists@, kanji),
{
    let mut info = String::new();
    let n = lists.categories.len();
    for i in 0..n
        invariant
            n == lists.categories@.len(),
            lists_wf(lists@),
            info@ == categories_info(lists@.take(i as int), kanji),
    {
        assert(lists@[i as int] == lists.categories@[i as int]@);
        assert(default_characters(lists@[i as int]) is Some);
        push_category_info(&mut info, &lists.categories[i], kanji);
        assert(lists@.take(i + 1).drop_last() =~= lists@.take(i as int));
    }
    assert(lists@.take(n as int) =~= lists@);
    pop_char(&mut info);
    pop_char(&mut info);
    assert(info@ =~= kanji_info(lists@, kanji));
    info
}


/// The address of the stroke order diagram of a kanji: the hexadecimal code
/// point, in lower case, names the image.
pub open spec fn so_diagram_url(kanji: char) -> Seq<char> {
    "https://raw.githubusercontent.com/mistval/kanji_images/master/gifs/"@ + hex_text(kanji as nat) + ".gif"@
}

/// The address of the stroke order diagram of a kanji.
pub fn get_so_diagram(kanji: char) -> (url: String)
    ensures
        url@ == so_diagram_url(kanji),
{
    let mut url = String::new();
    push_str(&mut url, "https://raw.githubusercontent.com/mistval/kanji_images/master/gifs/");
    push_hex(&mut url, kanji as u32 as u128);
    push_str(&mut url, ".gif");
    assert(url@ =~= so_diagram_url(kanji));
    url
}

/// The characters of a text, each once, in the order they first appear.
pub open spec fn first_occurrences(s: Seq<char>) -> Seq<char>
    decreases s.len(),
{
    if s.len() == 0 {
        Seq::empty()
    } else {
        let d = first_occurrences(s.drop_last());
        if d.contains(s.last()) {
            d
        } else {
            d.push(s.last())
        }
    }
}

/// The characters among `d` that some list holds.
pub open spec fn found_kanji(lists: Seq<CategoryView>, d: Seq<char>) -> Seq<char>
    decreases d.len(),
{
    if d.len() == 0 {
        Seq::empty()
    } else if kanji_info(lists, d.last()).len() > 0 {
        found_kanji(lists, d.drop_last()).push(d.last())
    } else {
        found_kanji(lists, d.drop_last())
    }
}

/// The number of characters among `d` that no list holds.
pub open spec fn skipped_count(lists: Seq<CategoryView>, d: Seq<char>) -> nat
    decreases d.len(),
{
    if d.len() == 0 {
        0
    } else if kanji_info(lists, d.last()).len() > 0 {
        skipped_count(lists, d.drop_last())
    } else {
        skipped_count(lists, d.drop_last()) + 1
    }
}

/// One line of the report: the kanji linked to its dictionary entry, then its lists.
pub open spec fn info_line(lists: Seq<CategoryView>, kanji: char) -> Seq<char> {
    "["@ + seq![kanji] + "](https://jisho.org/search/"@ + seq![kanji] + "%23kanji): "@
        + kanji_info(lists, kanji) + "\n"@
}

/// The lines of the found characters, one after the other.
pub open spec fn info_lines(lists: Seq<CategoryView>, found: Seq<char>) -> Seq<char>
    decreases found.len(),
{
    if found.len() == 0 {
        Seq::empty()
    } else {
        info_lines(lists, found.drop_last()) + info_line(lists, found.last())
    }
}

/// The report on a text: how many kanji were found, a line for each, and how
/// many characters were skipped.
pub open spec fn report_text(lists: Seq<CategoryView>, input: Seq<char>) -> Seq<char> {
    let d = first_occurrences(input);
    let found = found_kanji(lists, d);
    let skipped = skipped_count(lists, d);
    "Found "@ + nat_text(found.len()) + " kanji"@ + (if found.len() == 0 {
        "."@
    } else {
        ":"@
    }) + "\n"@ + info_lines(lists, found) + (if skipped > 0 {
        "Skipped "@ + nat_text(skipped) + " character"@ + (if skipped == 1 {
            ""@
        } else {
            "s"@
        }) + "."@
    } else {
        Seq::empty()
    })
}

/// What the kanji information command answers.
pub struct KanjiReport {
    /// The characters that some list holds, each once, in order.
    pub found: Vec<char>,
    /// The text of the answer.
    pub description: String,
    /// The stroke order diagram shown beside the answer when exactly one kanji was found.
    pub thumbnail: Option<String>,
}

fn vec_contains(v: &Vec<char>, c: char) -> (r: bool)
    ensures
        r == v@.contains(c),
{
    for i in 0..v.len()
        invariant
            forall|k: int| 0 <= k < i ==> v@[k] != c,
    {
        if v[i] == c {
            return true;
        }
    }
    false
}

/// The answer to the kanji information command on `input`: every distinct
/// character is looked up once; those that some list holds get a line.
pub fn kanji_report(lists: &KanjiLists, input: &str) -> (r: KanjiReport)
    requires
        input@.len() > 0 ==> lists_wf(lists@),
    ensures
        r.found@ == found_kanji(lists@, first_occurrences(input@)),
        r.description@ == report_text(lists@, input@),
        r.thumbnail is Some <==> r.found@.len() == 1,
        r.thumbnail matches Some(t) ==> t@ == so_diagram_url(r.found@[0]),
{
    let mut message = String::new();
    let mut covered: Vec<char> = Vec::new();
    let mut skipped: usize = 0;
    let mut found: Vec<char> = Vec::new();
    for character in it: input.chars()
        invariant
            it.seq() == input@,
            input@.len() > 0 ==> lists_wf(lists@),
            covered@ == first_occurrences(input@.take(it.index() as int)),
            found@ == found_kanji(lists@, covered@),
            skipped == skipped_count(lists@, covered@),
            found@.len() + skipped == covered@.len(),
            covered@.len() <= it.index(),
            message@ == info_lines(lists@, found@),
    {
        let ghost i = it.index();
        let ghost prev = covered@;
        assert(input@.take(i + 1).drop_last() =~= input@.take(i as int));
        assert(input@.take(i + 1).last() == character);
        if vec_contains(&covered, character) {
        } else {
            let kanji_info = get_kanji_info(lists, character);
            covered.push(character);
            assert(covered@.drop_last() =~= prev);
            let covered_len = covered.len();
            assert(skipped < covered_len);
            if kanji_info.as_str().is_empty() {
                skipped = skipped + 1;
            } else {
                let ghost before = found@;
                found.push(character);
                assert(found@.drop_last() =~= before);
                push_str(&mut message, "[");
                push_char(&mut message, character);
                push_str(&mut message, "](https://jisho.org/search/");
                push_char(&mut message, character);
                push_str(&mut message, "%23kanji): ");
                push_str(&mut message, kanji_info.as_str());
                push_str(&mut message, "\n");
                assert(message@ =~= info_lines(lists@, found@));
            }
        }
    }
    assert(input@.take(input@.len() as int) =~= input@);
    let mut description = String::new();
    push_str(&mut description, "Found ");
    push_nat(&mut description, found.len() as u128);
    push_str(&mut description, " kanji");
    if found.len() == 0 {
        push_str(&mut description, ".");
    } else {
        push_str(&mut description, ":");
    }
    push_str(&mut description, "\n");
    push_str(&mut description, message.as_str());
    if skipped > 0 {
        push_str(&mut description, "Skipped ");
        push_nat(&mut description, skipped as u128);
        push_str(&mut description, " character");
        if skipped == 1 {
            push_str(&mut description, "");
        } else {
            push_str(&mut description, "s");
        }
        push_str(&mut description, ".");
    }
    assert(description@ =~= report_text(lists@, input@));
    let thumbnail = if found.len() == 1 {
        Some(get_so_diagram(found[0]))
    } else {
        None
    };
    KanjiReport { found, description, thumbnail }
}


/// The upper-case form of a text, as `str::to_uppercase` gives it.
pub uninterp spec fn uppercase(s: Seq<char>) -> Seq<char>;

/// The upper-case form of an ASCII character: `a` to `z` become `A` to `Z`,
/// every other character stays.
pub open spec fn ascii_upper(c: char) -> char {
    if 'a' <= c && c <= 'z' {
        ((c as u32) - 32) as char
    } else {
        c
    }
}

/// A text of ASCII characters only.
pub open spec fn all_ascii(s: Seq<char>) -> bool {
    forall|i: int| 0 <= i < s.len() ==> (#[trigger] s[i] as u32) < 0x80
}

/// Calls `str::to_uppercase`, which maps each character to its upper-case
/// form by the Unicode tables of the standard library; the result is named
/// `uppercase` and depends on the text alone. On ASCII text those tables map
/// `a` to `z` onto `A` to `Z` and leave every other character as it is.
#[verifier::external_body]
fn to_uppercase(s: &str) -> (r: String)
    ensures
        r@ == uppercase(s@),
        all_ascii(s@) ==> r@ == s@.map_values(|c: char| ascii_upper(c)),
{
    s.to_uppercase()
}

/// The view of an optional string.
pub open spec fn opt_view(o: Option<String>) -> Option<Seq<char>> {
    match o {
        Some(s) => Some(s@),
        None => None,
    }
}

pub open spec fn category_names(lists: Seq<CategoryView>) -> Seq<Seq<char>> {
    lists.map_values(|c: CategoryView| c.name)
}

pub open spec fn variant_names(vs: Seq<(Seq<char>, Seq<char>)>) -> Seq<Seq<char>> {
    vs.map_values(|p: (Seq<char>, Seq<char>)| p.0)
}

/// One line per variant: its name in bold and how many kanji it holds.
pub open spec fn listing_lines(vs: Seq<(Seq<char>, Seq<char>)>) -> Seq<char>
    decreases vs.len(),
{
    if vs.len() == 0 {
        Seq::empty()
    } else {
        listing_lines(vs.drop_last()) + "**"@ + vs.last().0 + "** ("@ + nat_text(vs.last().1.len())
            + " kanji),\n"@
    }
}

/// How many kanji the variants hold together.
pub open spec fn total_chars(vs: Seq<(Seq<char>, Seq<char>)>) -> nat
    decreases vs.len(),
{
    if vs.len() == 0 {
        0
    } else {
        total_chars(vs.drop_last()) + vs.last().1.len()
    }
}

/// The list of variants offered to the user, with the option of all of them.
pub open spec fn subcategory_listing(vs: Seq<(Seq<char>, Seq<char>)>) -> Seq<char> {
    "\n"@ + listing_lines(vs) + "or **all** ("@ + nat_text(total_chars(vs))
        + " kanji total) for all subcategories"@
}

/// What a random kanji command asks for, before any random choice.
pub enum KanjiRequest {
    /// A kanji from the single list of the category at this position.
    FromList { category: usize },
    /// A kanji from the variant at position `variant` of the category.
    FromVariant { category: usize, variant: usize },
    /// A kanji from a variant of the category, the variant picked at random.
    FromAnyVariant { category: usize },
    /// No kanji: this text answers the command.
    Reply(String),
}

pub enum KanjiRequestView {
    FromList { category: int },
    FromVariant { category: int, variant: int },
    FromAnyVariant { category: int },
    Reply(Seq<char>),
}

impl View for KanjiRequest {
    type V = KanjiRequestView;

    open spec fn view(&self) -> KanjiRequestView {
        match self {
            KanjiRequest::FromList { category } => KanjiRequestView::FromList { category: *category as int },
            KanjiRequest::FromVariant { category, variant } => KanjiRequestView::FromVariant {
                category: *category as int,
                variant: *variant as int,
            },
            KanjiRequest::FromAnyVariant { category } => KanjiRequestView::FromAnyVariant {
                category: *category as int,
            },
            KanjiRequest::Reply(s) => KanjiRequestView::Reply(s@),
        }
    }
}

/// What a random kanji command on `category`, with the optional argument
/// `subcategory`, asks for. A category split into variants needs an argument:
/// `all` (in any case) or the name of a variant in upper case.
pub open spec fn request_of(lists: Seq<CategoryView>, category: Seq<char>, subcategory: Option<Seq<char>>) -> KanjiRequestView
    recommends
        first_index(category_names(lists), category) is Some,
{
    let ci = first_index(category_names(lists), category).unwrap();
    match default_characters(lists[ci]) {
        Some(CharactersView::Variants(vs)) => match subcategory {
            None => KanjiRequestView::Reply("Please specify a subcategory: "@ + subcategory_listing(vs)),
            Some(arg) => {
                let key = uppercase(arg);
                if key == "ALL"@ {
                    KanjiRequestView::FromAnyVariant { category: ci }
                } else {
                    match first_index(variant_names(vs), key) {
                        Some(vi) => KanjiRequestView::FromVariant { category: ci, variant: vi },
                        None => KanjiRequestView::Reply(
                            "That is an invalid subcategory. Please use "@ + subcategory_listing(vs) + "."@,
                        ),
                    }
                }
            },
        },
        _ => KanjiRequestView::FromList { category: ci },
    }
}

/// The variants of the default version of a category (empty for a single list).
pub open spec fn variants_of(c: CategoryView) -> Seq<(Seq<char>, Seq<char>)> {
    match default_characters(c) {
        Some(CharactersView::Variants(vs)) => vs,
        _ => Seq::empty(),
    }
}

/// The list of a category without variants.
pub open spec fn flat_list_of(c: CategoryView) -> Seq<char> {
    match default_characters(c) {
        Some(CharactersView::Flat(list)) => list,
        _ => Seq::empty(),
    }
}

fn find_category(lists: &KanjiLists, category: &str) -> (r: Option<usize>)
    ensures
        r matches Some(i) ==> first_index(category_names(lists@), category@) == Some(i as int)
            && i < lists.categories@.len(),
        r is None ==> first_index(category_names(lists@), category@) is None,
{
    let key = to_string(category);
    let ghost names = category_names(lists@);
    for i in 0..lists.categories.len()
        invariant
            names == category_names(lists@),
            key@ == category@,
            names.len() == lists.categories@.len(),
            forall|k: int| 0 <= k < i ==> names[k] != category@,
    {
        assert(names[i as int] == lists.categories@[i as int].name@);
        if lists.categories[i].name == key {
            proof {
                lemma_first_index_found(names, category@, i as int);
            }
            return Some(i);
        }
    }
    proof {
        lemma_first_index_absent(names, category@);
    }
    None
}

fn find_variant(vs: &Vec<(String, String)>, key: &String) -> (r: Option<usize>)
    ensures
        ({
            let names = variant_names(vs@.map_values(|p: (String, String)| pair_view(p)));
            &&& r matches Some(i) ==> first_index(names, key@) == Some(i as int) && i < vs@.len()
            &&& r is None ==> first_index(names, key@) is None
        }),
{
    assert(variant_names(vs@.map_values(|p: (String, String)| pair_view(p))) =~= entry_keys(keyed_view(vs@)));
    find_key(vs, key)
}

fn subcategory_list(vs: &Vec<(String, String)>) -> (r: String)
    requires
        total_chars(vs@.map_values(|p: (String, String)| pair_view(p))) <= usize::MAX,
    ensures
        r@ == subcategory_listing(vs@.map_values(|p: (String, String)| pair_view(p))),
{
    let ghost views = vs@.map_values(|p: (String, String)| pair_view(p));
    let mut string = String::new();
    push_str(&mut string, "\n");
    let mut total_count: usize = 0;
    let n = vs.len();
    for i in 0..n
        invariant
            n == vs@.len(),
            views == vs@.map_values(|p: (String, String)| pair_view(p)),
            total_chars(views) <= usize::MAX,
            total_count == total_chars(views.take(i as int)),
            string@ == "\n"@ + listing_lines(views.take(i as int)),
    {
        assert(views.take(i + 1).drop_last() =~= views.take(i as int));
        assert(views.take(i + 1).last() == pair_view(vs@[i as int]));
        proof {
            lemma_total_chars_prefix(views, i + 1);
        }
        let count = vs[i].1.as_str().unicode_len();
        total_count = total_count + count;
        push_str(&mut string, "**");
        push_str(&mut string, vs[i].0.as_str());
        push_str(&mut string, "** (");
        push_nat(&mut string, count as u128);
        push_str(&mut string, " kanji),\n");
        assert(string@ =~= "\n"@ + listing_lines(views.take(i + 1)));
    }
    assert(views.take(n as int) =~= views);
    push_str(&mut string, "or **all** (");
    push_nat(&mut string, total_count as u128);
    push_str(&mut string, " kanji total) for all subcategories");
    assert(string@ =~= subcategory_listing(views));
    string
}

proof fn lemma_total_chars_prefix(vs: Seq<(Seq<char>, Seq<char>)>, i: int)
    requires
        0 <= i <= vs.len(),
    ensures
        total_chars(vs.take(i)) <= total_chars(vs),
    decreases vs.len() - i,
{
    if i < vs.len() {
        lemma_total_chars_prefix(vs, i + 1);
        assert(vs.take(i + 1).drop_last() =~= vs.take(i));
    } else {
        assert(vs.take(i) =~= vs);
    }
}

/// A random kanji command can be asked of `category`: a list of that name
/// exists and names a default version that it has; a list split into variants
/// holds no more kanji in all than a `usize` counts. Other lists do not matter.
pub open spec fn requestable(lists: Seq<CategoryView>, category: Seq<char>) -> bool {
    &&& first_index(category_names(lists), category) is Some
    &&& default_characters(lists[first_index(category_names(lists), category).unwrap()]) is Some
    &&& total_chars(variants_of(lists[first_index(category_names(lists), category).unwrap()])) <= usize::MAX
}

/// What a random kanji command asks for.
pub fn kanji_request(lists: &KanjiLists, category: &str, subcategory: Option<String>) -> (r: KanjiRequest)
    requires
        requestable(lists@, category@),
    ensures
        r@ == request_of(lists@, category@, opt_view(subcategory)),
        ({
            let ci = first_index(category_names(lists@), category@).unwrap();
            (default_characters(lists@[ci]) matches Some(CharactersView::Variants(_))
                && subcategory matches Some(arg) && all_ascii(arg@))
                ==> uppercase(subcategory.unwrap()@) == subcategory.unwrap()@.map_values(|c: char| ascii_upper(c))
        }),
{
    let ci = match find_category(lists, category) {
        Some(i) => i,
        None => 0,
    };
    let cat = &lists.categories[ci];
    assert(lists@[ci as int] == cat@);
    assert(default_characters(lists@[ci as int]) is Some);
    match default_of(cat) {
        Characters::Flat(_) => KanjiRequest::FromList { category: ci },
        Characters::Variants(vs) => {
            let listing = subcategory_list(vs);
            match subcategory {
                Some(string) => {
                    let string = to_uppercase(string.as_str());
                    let all = to_string("ALL");
                    if string == all {
                        KanjiRequest::FromAnyVariant { category: ci }
                    } else {
                        match find_variant(vs, &string) {
                            Some(vi) => KanjiRequest::FromVariant { category: ci, variant: vi },
                            None => {
                                let mut message = String::new();
                                push_str(&mut message, "That is an invalid subcategory. Please use ");
                                push_str(&mut message, listing.as_str());
                                push_str(&mut message, ".");
                                assert(message@ =~= request_of(lists@, category@, opt_view(subcategory))->Reply_0);
                                KanjiRequest::Reply(message)
                            },
                        }
                    }
                },
                None => {
                    let mut message = String::new();
                    push_str(&mut message, "Please specify a subcategory: ");
                    push_str(&mut message, listing.as_str());
                    assert(message@ =~= request_of(lists@, category@, opt_view(subcategory))->Reply_0);
                    KanjiRequest::Reply(message)
                },
            }
        },
    }
}


/// Whether a request can be answered: the positions exist and every list a
/// kanji may be picked from holds one.
pub open spec fn request_ready(lists: Seq<CategoryView>, req: KanjiRequestView) -> bool {
    match req {
        KanjiRequestView::FromList { category } => {
            &&& 0 <= category < lists.len()
            &&& default_characters(lists[category]) matches Some(CharactersView::Flat(list))
            &&& list.len() > 0
        },
        KanjiRequestView::FromVariant { category, variant } => 0 <= category < lists.len()
            && default_characters(lists[category]) is Some
            && 0 <= variant < variants_of(lists[category]).len()
            && variants_of(lists[category])[variant].1.len() > 0,
        KanjiRequestView::FromAnyVariant { category } => 0 <= category < lists.len()
            && default_characters(lists[category]) is Some
            && variants_of(lists[category]).len() > 0
            && forall|v: int| 0 <= v < variants_of(lists[category]).len()
                ==> (#[trigger] variants_of(lists[category])[v]).1.len() > 0,
        KanjiRequestView::Reply(_) => true,
    }
}

/// What a random kanji command answers: a kanji to show, with a comment after it,
/// or a text.
pub enum KanjiAnswer {
    Show { kanji: char, comment: String },
    Reply(String),
}

/// Whether a request can be answered.
pub fn request_is_ready(lists: &KanjiLists, req: &KanjiRequest) -> (r: bool)
    ensures
        r == request_ready(lists@, req@),
{
    match req {
        KanjiRequest::FromList { category } => {
            if *category >= lists.categories.len() {
                return false;
            }
            assert(lists@[*category as int] == lists.categories@[*category as int]@);
            if !has_default(&lists.categories[*category]) {
                return false;
            }
            match default_of(&lists.categories[*category]) {
                Characters::Flat(list) => !list.as_str().is_empty(),
                Characters::Variants(_) => false,
            }
        },
        KanjiRequest::FromVariant { category, variant } => {
            if *category >= lists.categories.len() {
                return false;
            }
            assert(lists@[*category as int] == lists.categories@[*category as int]@);
            if !has_default(&lists.categories[*category]) {
                return false;
            }
            match default_of(&lists.categories[*category]) {
                Characters::Flat(_) => false,
                Characters::Variants(vs) => {
                    if *variant >= vs.len() {
                        return false;
                    }
                    !vs[*variant].1.as_str().is_empty()
                },
            }
        },
        KanjiRequest::FromAnyVariant { category } => {
            if *category >= lists.categories.len() {
                return false;
            }
            assert(lists@[*category as int] == lists.categories@[*category as int]@);
            if !has_default(&lists.categories[*category]) {
                return false;
            }
            match default_of(&lists.categories[*category]) {
                Characters::Flat(_) => false,
                Characters::Variants(vs) => {
                    let ghost views = vs@.map_values(|p: (String, String)| pair_view(p));
                    assert(variants_of(lists@[*category as int]) == views);
                    if vs.len() == 0 {
                        return false;
                    }
                    for v in 0..vs.len()
                        invariant
                            views == vs@.map_values(|p: (String, String)| pair_view(p)),
                            (*category as int) < lists@.len(),
                            req@ == (KanjiRequestView::FromAnyVariant { category: *category as int }),
                            default_characters(lists@[*category as int]) is Some,
                            variants_of(lists@[*category as int]) == views,
                            forall|k: int| 0 <= k < v ==> (#[trigger] views[k]).1.len() > 0,
                    {
                        assert(views[v as int] == pair_view(vs@[v as int]));
                        if vs[v].1.as_str().is_empty() {
                            assert(variants_of(lists@[*category as int])[v as int].1.len() == 0);
                            return false;
                        }
                    }
                    true
                },
            }
        },
        KanjiRequest::Reply(_) => true,
    }
}

/// How many variants a request leaves to choose from (one where it leaves no choice).
pub open spec fn variant_choices(lists: Seq<CategoryView>, req: KanjiRequestView) -> nat {
    match req {
        KanjiRequestView::FromAnyVariant { category } => variants_of(lists[category]).len(),
        _ => 1,
    }
}

/// The list a kanji is picked from, `variant` naming the variant where the
/// request leaves it open.
pub open spec fn pick_list(lists: Seq<CategoryView>, req: KanjiRequestView, variant: int) -> Seq<char> {
    match req {
        KanjiRequestView::FromList { category } => flat_list_of(lists[category]),
        KanjiRequestView::FromVariant { category, variant: v } => variants_of(lists[category])[v].1,
        KanjiRequestView::FromAnyVariant { category } => variants_of(lists[category])[variant].1,
        KanjiRequestView::Reply(_) => Seq::empty(),
    }
}

/// The comment after the kanji: the variant's name where it was picked at random.
pub open spec fn pick_comment(lists: Seq<CategoryView>, req: KanjiRequestView, variant: int) -> Seq<char> {
    match req {
        KanjiRequestView::FromAnyVariant { category } => ", **"@ + variants_of(lists[category])[variant].0 + "**"@,
        _ => Seq::empty(),
    }
}

fn choices_of(lists: &KanjiLists, req: &KanjiRequest) -> (n: usize)
    requires
        request_ready(lists@, req@),
    ensures
        n == variant_choices(lists@, req@),
{
    match req {
        KanjiRequest::FromAnyVariant { category } => {
            assert(lists@[*category as int] == lists.categories@[*category as int]@);
            match default_of(&lists.categories[*category]) {
                Characters::Variants(vs) => vs.len(),
                Characters::Flat(_) => 0,
            }
        },
        _ => 1,
    }
}

fn pick_list_of<'a>(lists: &'a KanjiLists, req: &KanjiRequest, variant: usize) -> (list: &'a String)
    requires
        request_ready(lists@, req@),
        !(req@ is Reply),
        variant < variant_choices(lists@, req@),
    ensures
        list@ == pick_list(lists@, req@, variant as int),
{
    match req {
        KanjiRequest::FromList { category } => {
            assert(lists@[*category as int] == lists.categories@[*category as int]@);
            match default_of(&lists.categories[*category]) {
                Characters::Flat(list) => list,
                Characters::Variants(vs) => &vs[0].1,
            }
        },
        KanjiRequest::FromVariant { category, variant: v } => {
            assert(lists@[*category as int] == lists.categories@[*category as int]@);
            match default_of(&lists.categories[*category]) {
                Characters::Variants(vs) => {
                    assert(variants_of(lists@[*category as int])[*v as int] == pair_view(vs@[*v as int]));
                    &vs[*v].1
                },
                Characters::Flat(list) => list,
            }
        },
        KanjiRequest::FromAnyVariant { category } => {
            assert(lists@[*category as int] == lists.categories@[*category as int]@);
            match default_of(&lists.categories[*category]) {
                Characters::Variants(vs) => {
                    assert(variants_of(lists@[*category as int])[variant as int] == pair_view(vs@[variant as int]));
                    &vs[variant].1
                },
                Characters::Flat(list) => list,
            }
        },
        KanjiRequest::Reply(_) => {
            assert(false);
            &lists.categories[0].name
        },
    }
}

/// Answers a request with the kanji at `position` of its list, and, where the
/// request leaves the variant open, of the variant at `variant`.
pub fn pick_answer(lists: &KanjiLists, req: KanjiRequest, variant: usize, position: usize) -> (a: KanjiAnswer)
    requires
        request_ready(lists@, req@),
        !(req@ is Reply) ==> variant < variant_choices(lists@, req@)
            && position < pick_list(lists@, req@, variant as int).len(),
    ensures
        match req@ {
            KanjiRequestView::Reply(m) => (a matches KanjiAnswer::Reply(t) && t@ == m),
            _ => {
                &&& a matches KanjiAnswer::Show { kanji, comment }
                &&& kanji == pick_list(lists@, req@, variant as int)[position as int]
                &&& comment@ == pick_comment(lists@, req@, variant as int)
            },
        },
{
    if let KanjiRequest::Reply(m) = req {
        return KanjiAnswer::Reply(m);
    }
    let list = pick_list_of(lists, &req, variant);
    let kanji = list.as_str().get_char(position);
    let mut comment = String::new();
    if let KanjiRequest::FromAnyVariant { category } = req {
        assert(lists@[category as int] == lists.categories@[category as int]@);
        match default_of(&lists.categories[category]) {
            Characters::Variants(vs) => {
                assert(variants_of(lists@[category as int])[variant as int] == pair_view(vs@[variant as int]));
                push_str(&mut comment, ", **");
                push_str(&mut comment, vs[variant].0.as_str());
                push_str(&mut comment, "**");
            },
            Characters::Flat(_) => {},
        }
    }
    assert(comment@ =~= pick_comment(lists@, req@, variant as int));
    KanjiAnswer::Show { kanji, comment }
}

/// Answers a request, picking at random where it leaves a choice: the
/// variant, where it is open, then the kanji.
pub fn answer_kanji_request(lists: &KanjiLists, req: KanjiRequest) -> (a: KanjiAnswer)
    requires
        request_ready(lists@, req@),
    ensures
        match req@ {
            KanjiRequestView::Reply(m) => (a matches KanjiAnswer::Reply(t) && t@ == m),
            _ => {
                &&& a matches KanjiAnswer::Show { kanji, comment }
                &&& exists|v: int|
                    0 <= v < variant_choices(lists@, req@)
                    && #[trigger] pick_list(lists@, req@, v).contains(kanji)
                    && comment@ == pick_comment(lists@, req@, v)
            },
        },
{
    if let KanjiRequest::Reply(m) = req {
        return KanjiAnswer::Reply(m);
    }
    let choices = choices_of(lists, &req);
    let variant = random_index(choices);
    let count = pick_list_of(lists, &req, variant).as_str().unicode_len();
    let position = random_index(count);
    let a = pick_answer(lists, req, variant, position);
    assert(a matches KanjiAnswer::Show { kanji, comment } && pick_list(lists@, req@, variant as int).contains(kanji));
    a
}

/// Whether a character has the Unicode `White_Space` property, as
/// `char::is_whitespace` tells: tab to carriage return, space, next line,
/// no-break space, Ogham space mark, the spaces U+2000 to U+200A, the line
/// and paragraph separators, narrow no-break space, medium mathematical space
/// and ideographic space.
pub open spec fn white_space(c: char) -> bool {
    let u = c as u32;
    ||| 0x09 <= u <= 0x0d
    ||| u == 0x20
    ||| u == 0x85
    ||| u == 0xa0
    ||| u == 0x1680
    ||| 0x2000 <= u <= 0x200a
    ||| u == 0x2028
    ||| u == 0x2029
    ||| u == 0x202f
    ||| u == 0x205f
    ||| u == 0x3000
}

/// Whether a character is white space.
pub fn is_white_space(c: char) -> (r: bool)
    ensures
        r == white_space(c),
{
    let u = c as u32;
    (0x09 <= u && u <= 0x0d) || u == 0x20 || u == 0x85 || u == 0xa0 || u == 0x1680 || (0x2000 <= u
        && u <= 0x200a) || u == 0x2028 || u == 0x2029 || u == 0x202f || u == 0x205f || u == 0x3000
}

/// At most this many stroke order diagrams answer one command.
pub const MAX_DIAGRAMS: usize = 4;

/// After reading a text: the characters whose diagrams were shown, and whether
/// the limit stopped the reading.
pub open spec fn stroke_order_state(s: Seq<char>) -> (Seq<char>, bool)
    decreases s.len(),
{
    if s.len() == 0 {
        (Seq::empty(), false)
    } else {
        let (shown, stopped) = stroke_order_state(s.drop_last());
        let c = s.last();
        if stopped || shown.len() >= MAX_DIAGRAMS {
            (shown, true)
        } else if white_space(c) || shown.contains(c) {
            (shown, false)
        } else {
            (shown.push(c), false)
        }
    }
}

/// What the stroke order command does with a text.
pub enum StrokeOrderPlan {
    /// Answer with this text only.
    Reply(String),
    /// Show the diagrams of these characters in order, then the warning, if any.
    Show { characters: Vec<char>, warning: Option<String> },
}

/// The stroke order command: an empty text gets a request for text; otherwise
/// each character that is no white space is shown once, up to four of them,
/// and a warning follows when a character came after the fourth.
pub fn stroke_order_plan(text: &str) -> (p: StrokeOrderPlan)
    ensures
        text@.len() == 0 ==> (p matches StrokeOrderPlan::Reply(m)
            && m@ == "Please provide some text you want the stroke order for."@),
        text@.len() > 0 ==> (p matches StrokeOrderPlan::Show { characters, warning }
            && characters@ == stroke_order_state(text@).0
            && (warning is Some <==> stroke_order_state(text@).1)
            && (warning matches Some(w) ==> w@
                == ":warning: Maximum number of stroke order diagrams per command reached."@)),
{
    if text.is_empty() {
        return StrokeOrderPlan::Reply(
            to_string("Please provide some text you want the stroke order for."),
        );
    }
    let mut displayed: Vec<char> = Vec::new();
    let mut stopped = false;
    for character in it: text.chars()
        invariant
            it.seq() == text@,
            (displayed@, stopped) == stroke_order_state(text@.take(it.index() as int)),
            displayed@.len() <= MAX_DIAGRAMS,
    {
        let ghost i = it.index();
        assert(text@.take(i + 1).drop_last() =~= text@.take(i as int));
        assert(text@.take(i + 1).last() == character);
        if stopped || displayed.len() >= MAX_DIAGRAMS {
            stopped = true;
        } else if is_white_space(character) || vec_contains(&displayed, character) {
        } else {
            displayed.push(character);
        }
    }
    assert(text@.take(text@.len() as int) =~= text@);
    let warning = if stopped {
        Some(to_string(":warning: Maximum number of stroke order diagrams per command reached."))
    } else {
        None
    };
    StrokeOrderPlan::Show { characters: displayed, warning }
}

/// The answer that introduces a kanji: the kanji, then the comment.
pub fn kanji_reply(kanji: char, comment: &str) -> (r: String)
    ensures
        r@ == seq![kanji] + comment@,
{
    let mut r = String::new();
    push_char(&mut r, kanji);
    push_str(&mut r, comment);
    assert(r@ =~= seq![kanji] + comment@);
    r
}

/// What follows the kanji once its diagram address was tried: the address,
/// unless the server answered 404 (not found).
pub fn diagram_message(kanji: char, status: u16) -> (r: String)
    ensures
        status != 404 ==> r@ == so_diagram_url(kanji),
        status == 404 ==> r@ == "The stroke order diagram for this kanji is unavailable."@,
{
    if status != 404 {
        get_so_diagram(kanji)
    } else {
        to_string("The stroke order diagram for this kanji is unavailable.")
    }
}


fn has_default(c: &Category) -> (r: bool)
    ensures
        r == (default_characters(c@) is Some),
{
    let n = c.versions.len();
    for i in 0..n
        invariant
            n == c.versions@.len(),
            forall|k: int| 0 <= k < i ==> (#[trigger] c@.versions[k]).0 != c@.default_version,
    {
        assert(c@.versions[i as int] == version_view(c.versions@[i as int]));
        if c.versions[i].0 == c.default_version {
            proof {
                lemma_lookup_step(c@.versions, c@.default_version, i as int);
            }
            return true;
        }
    }
    proof {
        lemma_lookup_absent(c@.versions, c@.default_version);
    }
    false
}

/// Whether every category names a default version that it has.
pub fn is_lists_wf(lists: &KanjiLists) -> (r: bool)
    ensures
        r == lists_wf(lists@),
{
    for i in 0..lists.categories.len()
        invariant
            forall|k: int| 0 <= k < i ==> (#[trigger] default_characters(lists@[k])) is Some,
    {
        assert(lists@[i as int] == lists.categories@[i as int]@);
        if !has_default(&lists.categories[i]) {
            return false;
        }
    }
    true
}

/// Whether a random kanji command on `category` can be asked.
pub fn can_request(lists: &KanjiLists, category: &str) -> (r: bool)
    ensures
        r == requestable(lists@, category@),
{
    let ci = match find_category(lists, category) {
        Some(i) => i,
        None => {
            return false;
        },
    };
    let cat = &lists.categories[ci];
    assert(lists@[ci as int] == cat@);
    if !has_default(cat) {
        return false;
    }
    match default_of(cat) {
        Characters::Flat(_) => true,
        Characters::Variants(vs) => {
            let ghost views = vs@.map_values(|p: (String, String)| pair_view(p));
            assert(variants_of(lists@[ci as int]) == views);
            let mut total: usize = 0;
            for i in 0..vs.len()
                invariant
                    views == vs@.map_values(|p: (String, String)| pair_view(p)),
                    views.len() == vs@.len(),
                    total == total_chars(views.take(i as int)),
                    (ci as int) < lists@.len(),
                    first_index(category_names(lists@), category@) == Some(ci as int),
                    variants_of(lists@[ci as int]) == views,
            {
                assert(views.take(i + 1).drop_last() =~= views.take(i as int));
                assert(views.take(i + 1).last() == pair_view(vs@[i as int]));
                let count = vs[i].1.as_str().unicode_len();
                if count > usize::MAX - total {
                    proof {
                        lemma_total_chars_prefix(views, i + 1);
                    }
                    return false;
                }
                total = total + count;
            }
            assert(views.take(vs.len() as int) =~= views);
            true
        },
    }
}

} // verus!
