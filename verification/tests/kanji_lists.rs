use ji_chan::fullwidth::to_fullwidth;
use ji_chan::kanji::{
    answer_kanji_request, diagram_message, get_kanji_info, get_so_diagram, kanji_reply, kanji_report,
    can_request, is_lists_wf, is_white_space, kanji_request, pick_answer, request_is_ready, stroke_order_plan,
    Category, Characters, KanjiAnswer, KanjiLists, KanjiRequest, StrokeOrderPlan,
};
use ji_chan::random::{random_from_string, random_index};

fn s(t: &str) -> String {
    t.to_string()
}

fn lists() -> KanjiLists {
    KanjiLists {
        categories: vec![
            Category {
                name: s("JLPT"),
                default_version: s("2010"),
                versions: vec![(
                    s("2010"),
                    Characters::Variants(vec![(s("N5"), s("字日")), (s("N4"), s("漢字")), (s("N3"), s("語"))]),
                )],
            },
            Category {
                name: s("JOYO"),
                default_version: s("2010"),
                versions: vec![
                    (s("1981"), Characters::Flat(s("日"))),
                    (s("2010"), Characters::Flat(s("字漢日"))),
                ],
            },
        ],
    }
}

#[test]
fn kanji_info_names_lists_and_variants() {
    let l = lists();
    assert_eq!(get_kanji_info(&l, '字'), "**JLPT** (N5, N4), **JOYO**");
    assert_eq!(get_kanji_info(&l, '語'), "**JLPT** (N3)");
    assert_eq!(get_kanji_info(&l, '漢'), "**JLPT** (N4), **JOYO**");
}

#[test]
fn kanji_info_uses_the_default_version() {
    let l = lists();
    // '日' is in both versions of JOYO; only the default one counts, where it is too.
    assert_eq!(get_kanji_info(&l, '日'), "**JLPT** (N5), **JOYO**");
}

#[test]
fn kanji_info_is_empty_for_unlisted_characters() {
    let l = lists();
    assert_eq!(get_kanji_info(&l, 'a'), "");
    assert_eq!(get_kanji_info(&KanjiLists { categories: vec![] }, '字'), "");
}

#[test]
fn report_counts_found_and_skipped() {
    let l = lists();
    let r = kanji_report(&l, "字a字b語");
    assert_eq!(r.found, vec!['字', '語']);
    assert_eq!(
        r.description,
        "Found 2 kanji:\n[字](https://jisho.org/search/字%23kanji): **JLPT** (N5, N4), **JOYO**\n[語](https://jisho.org/search/語%23kanji): **JLPT** (N3)\nSkipped 2 characters."
    );
    assert_eq!(r.thumbnail, None);
    assert_eq!(r.found.len() + 2, 4);
}

#[test]
fn report_of_a_single_kanji_has_a_thumbnail() {
    let l = lists();
    let r = kanji_report(&l, "漢");
    assert_eq!(r.description, "Found 1 kanji:\n[漢](https://jisho.org/search/漢%23kanji): **JLPT** (N4), **JOYO**\n");
    assert_eq!(
        r.thumbnail,
        Some(s("https://raw.githubusercontent.com/mistval/kanji_images/master/gifs/6f22.gif"))
    );
}

#[test]
fn report_without_kanji() {
    let l = lists();
    let r = kanji_report(&l, "x");
    assert_eq!(r.description, "Found 0 kanji.\nSkipped 1 character.");
    let r = kanji_report(&l, "");
    assert_eq!(r.description, "Found 0 kanji.\n");
}

#[test]
fn so_diagram_address_is_lower_case_hex() {
    assert_eq!(
        get_so_diagram('字'),
        "https://raw.githubusercontent.com/mistval/kanji_images/master/gifs/5b57.gif"
    );
    assert_eq!(
        get_so_diagram('a'),
        "https://raw.githubusercontent.com/mistval/kanji_images/master/gifs/61.gif"
    );
}

#[test]
fn diagram_message_depends_on_status() {
    assert_eq!(
        diagram_message('字', 200),
        "https://raw.githubusercontent.com/mistval/kanji_images/master/gifs/5b57.gif"
    );
    assert_eq!(diagram_message('字', 404), "The stroke order diagram for this kanji is unavailable.");
    assert_eq!(kanji_reply('字', ", **N5**"), "字, **N5**");
}

#[test]
fn request_from_a_single_list() {
    let l = lists();
    let r = kanji_request(&l, "JOYO", None);
    assert!(matches!(r, KanjiRequest::FromList { category: 1 }));
    assert!(request_is_ready(&l, &r));
    match answer_kanji_request(&l, r) {
        KanjiAnswer::Show { kanji, comment } => {
            assert!("字漢日".contains(kanji));
            assert_eq!(comment, "");
        }
        KanjiAnswer::Reply(_) => panic!("expected a kanji"),
    }
}

#[test]
fn request_needs_a_subcategory() {
    let l = lists();
    match kanji_request(&l, "JLPT", None) {
        KanjiRequest::Reply(m) => assert_eq!(
            m,
            "Please specify a subcategory: \n**N5** (2 kanji),\n**N4** (2 kanji),\n**N3** (1 kanji),\nor **all** (5 kanji total) for all subcategories"
        ),
        _ => panic!("expected a reply"),
    }
}

#[test]
fn request_of_a_variant_is_case_insensitive() {
    let l = lists();
    let r = kanji_request(&l, "JLPT", Some(s("n4")));
    assert!(matches!(r, KanjiRequest::FromVariant { category: 0, variant: 1 }));
    match answer_kanji_request(&l, r) {
        KanjiAnswer::Show { kanji, comment } => {
            assert!("漢字".contains(kanji));
            assert_eq!(comment, "");
        }
        KanjiAnswer::Reply(_) => panic!("expected a kanji"),
    }
}

#[test]
fn request_of_all_variants_names_the_variant() {
    let l = lists();
    let r = kanji_request(&l, "JLPT", Some(s("All")));
    assert!(matches!(r, KanjiRequest::FromAnyVariant { category: 0 }));
    match answer_kanji_request(&l, r) {
        KanjiAnswer::Show { kanji, comment } => {
            let ok = (comment == ", **N5**" && "字日".contains(kanji))
                || (comment == ", **N4**" && "漢字".contains(kanji))
                || (comment == ", **N3**" && kanji == '語');
            assert!(ok);
        }
        KanjiAnswer::Reply(_) => panic!("expected a kanji"),
    }
}

#[test]
fn request_of_an_unknown_variant() {
    let l = lists();
    match kanji_request(&l, "JLPT", Some(s("N9"))) {
        KanjiRequest::Reply(m) => assert_eq!(
            m,
            "That is an invalid subcategory. Please use \n**N5** (2 kanji),\n**N4** (2 kanji),\n**N3** (1 kanji),\nor **all** (5 kanji total) for all subcategories."
        ),
        _ => panic!("expected a reply"),
    }
}

#[test]
fn empty_lists_are_not_ready() {
    let l = KanjiLists {
        categories: vec![Category {
            name: s("HYOGAI"),
            default_version: s("v"),
            versions: vec![(s("v"), Characters::Variants(vec![(s("A"), s("字")), (s("B"), s(""))]))],
        }],
    };
    let all = kanji_request(&l, "HYOGAI", Some(s("all")));
    assert!(!request_is_ready(&l, &all));
    let a = kanji_request(&l, "HYOGAI", Some(s("a")));
    assert!(request_is_ready(&l, &a));
    let b = kanji_request(&l, "HYOGAI", Some(s("b")));
    assert!(!request_is_ready(&l, &b));
}

#[test]
fn stroke_order_of_empty_text() {
    match stroke_order_plan("") {
        StrokeOrderPlan::Reply(m) => assert_eq!(m, "Please provide some text you want the stroke order for."),
        _ => panic!("expected a reply"),
    }
}

#[test]
fn stroke_order_skips_white_space_and_repeats() {
    match stroke_order_plan("字 字\t漢") {
        StrokeOrderPlan::Show { characters, warning } => {
            assert_eq!(characters, vec!['字', '漢']);
            assert_eq!(warning, None);
        }
        _ => panic!("expected diagrams"),
    }
}

#[test]
fn stroke_order_stops_after_four() {
    match stroke_order_plan("abcd") {
        StrokeOrderPlan::Show { characters, warning } => {
            assert_eq!(characters, vec!['a', 'b', 'c', 'd']);
            assert_eq!(warning, None);
        }
        _ => panic!("expected diagrams"),
    }
    match stroke_order_plan("abcd ") {
        StrokeOrderPlan::Show { characters, warning } => {
            assert_eq!(characters, vec!['a', 'b', 'c', 'd']);
            assert_eq!(
                warning,
                Some(s(":warning: Maximum number of stroke order diagrams per command reached."))
            );
        }
        _ => panic!("expected diagrams"),
    }
    match stroke_order_plan("aabbccddee") {
        StrokeOrderPlan::Show { characters, warning } => {
            assert_eq!(characters, vec!['a', 'b', 'c', 'd']);
            assert!(warning.is_some());
        }
        _ => panic!("expected diagrams"),
    }
}

#[test]
fn fullwidth_forms() {
    assert_eq!(to_fullwidth("abc!~"), "ａｂｃ！～");
    assert_eq!(to_fullwidth("ｶﾀ"), "カタ");
    assert_eq!(to_fullwidth("a b"), "ａ ｂ");
    assert_eq!(to_fullwidth("字"), "字");
    assert_eq!(to_fullwidth(""), "");
}

#[test]
fn random_picks_stay_in_range() {
    for _ in 0..50 {
        assert!(random_index(3) < 3);
        assert!("字漢".contains(random_from_string("字漢")));
    }
    assert_eq!(random_from_string("x"), 'x');
    assert_eq!(random_index(1), 0);
}

#[test]
fn picking_by_position() {
    let l = lists();
    let r = kanji_request(&l, "JLPT", Some(s("all")));
    match pick_answer(&l, r, 1, 0) {
        KanjiAnswer::Show { kanji, comment } => {
            assert_eq!(kanji, '漢');
            assert_eq!(comment, ", **N4**");
        }
        KanjiAnswer::Reply(_) => panic!("expected a kanji"),
    }
    let r = kanji_request(&l, "JOYO", None);
    match pick_answer(&l, r, 0, 2) {
        KanjiAnswer::Show { kanji, comment } => {
            assert_eq!(kanji, '日');
            assert_eq!(comment, "");
        }
        KanjiAnswer::Reply(_) => panic!("expected a kanji"),
    }
    let r = kanji_request(&l, "JLPT", Some(s("n3")));
    match pick_answer(&l, r, 0, 0) {
        KanjiAnswer::Show { kanji, .. } => assert_eq!(kanji, '語'),
        KanjiAnswer::Reply(_) => panic!("expected a kanji"),
    }
}

#[test]
fn white_space_agrees_with_std() {
    for code in 0u32..=0x10ffff {
        if let Some(c) = char::from_u32(code) {
            assert_eq!(is_white_space(c), c.is_whitespace(), "U+{:04X}", code);
        }
    }
}

#[test]
fn a_request_reads_only_its_own_list() {
    let mut l = lists();
    l.categories.push(Category { name: s("KYOIKU"), default_version: s("2020"), versions: vec![] });
    assert!(!is_lists_wf(&l));
    assert!(can_request(&l, "JOYO"));
    assert!(can_request(&l, "JLPT"));
    assert!(!can_request(&l, "KYOIKU"));
    assert!(!can_request(&l, "HYOGAI"));
    let req = kanji_request(&l, "JOYO", None);
    assert!(matches!(req, KanjiRequest::FromList { category: 1 }));
    assert!(request_is_ready(&l, &req));
    match pick_answer(&l, req, 0, 1) {
        KanjiAnswer::Show { kanji, comment } => {
            assert_eq!(kanji, '漢');
            assert_eq!(comment, "");
        }
        KanjiAnswer::Reply(_) => panic!("a kanji is shown"),
    }
    let req = kanji_request(&l, "JLPT", Some(s("all")));
    assert!(matches!(req, KanjiRequest::FromAnyVariant { category: 0 }));
}
