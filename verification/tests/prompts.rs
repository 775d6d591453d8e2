//! Prompts as tags.

use nai_gallery::tags::{normalize_tags, tags_of_plain, Tag};

fn names(tags: &[Tag]) -> Vec<&str> {
    tags.iter().map(|t| t.name.as_str()).collect()
}

#[test]
fn strips_group_weights() {
    let tags = normalize_tags(
        "1girl, 1::artist: alpha painter, 0.5::artist: beta_sketch,:: 0.8::artist: gamma 9x,::artist: delta_box,0.7::artist: epsilon::, year 2025,::     1::expert shading::,  upper torso",
        "base",
    );
    assert_eq!(
        names(&tags),
        vec![
            "1girl", "alpha painter", "beta_sketch", "gamma 9x", "delta_box",
            "epsilon", "year 2025", "expert shading", "upper torso"
        ]
    );
    assert_eq!(tags[1].category, "artist");
    assert_eq!(tags[6].category, "general");
}

#[test]
fn char_tags_categorized() {
    let tags = normalize_tags("girl, female knight, blonde, armor", "char");
    assert!(tags.iter().all(|t| t.category == "char"));
    assert_eq!(tags.len(), 4);
}

#[test]
fn weight_around_an_artist_is_dropped() {
    let tags = normalize_tags("0.7::artist: name::", "base");
    assert_eq!(names(&tags), vec!["name"]);
    assert_eq!(tags[0].category, "artist");
    assert_eq!(tags[0].source, "base");
}

#[test]
fn weights_need_a_number_and_two_colons() {
    // the first dot belongs to no number that ends in colons
    assert_eq!(names(&normalize_tags("1.2.3::x::", "base")), vec!["1.x"]);
    assert_eq!(names(&normalize_tags("1.::y::", "base")), vec!["1.y"]);
    assert_eq!(names(&normalize_tags("12:z", "base")), vec!["12:z"]);
    assert_eq!(names(&normalize_tags("12::z", "base")), vec!["z"]);
    assert_eq!(names(&normalize_tags("0.25::z", "base")), vec!["z"]);
}

#[test]
fn weights_are_taken_out_anywhere_outside_groups() {
    assert_eq!(names(&normalize_tags("a2::b", "base")), vec!["ab"]);
    assert_eq!(names(&normalize_tags("a 1::b", "base")), vec!["a b"]);
    assert_eq!(names(&normalize_tags("a:2::b", "base")), vec!["a:b"]);
    assert_eq!(names(&normalize_tags("1girl 1.2::blue eyes::", "base")), vec!["1girl blue eyes"]);
}

#[test]
fn the_number_of_a_tag_in_a_group_stays() {
    let tags = normalize_tags("1::year 2025::", "base");
    assert_eq!(tags.len(), 1);
    assert_eq!(tags[0].name, "year 2025");
    assert_eq!(tags[0].category, "general");
    assert_eq!(tags[0].source, "base");
    assert_eq!(names(&normalize_tags("0.5::artist: studio 7::, x", "base")), vec!["studio 7", "x"]);
    // the colons behind the number close the group
    assert_eq!(names(&normalize_tags("2::sd 1.5::, cat 9::dog", "base")), vec!["sd 1.5", "cat dog"]);
    assert_eq!(names(&normalize_tags("2::a::, b 3::c 4::, d", "base")), vec!["a", "b c 4", "d"]);
}

#[test]
fn a_weight_in_a_group_opens_a_token() {
    // after a comma, and after a pair of colons, with white space or not
    assert_eq!(names(&normalize_tags("\t 3::a, 4::b,5::c", "base")), vec!["a", "b", "c"]);
    assert_eq!(names(&normalize_tags("1::2::x", "base")), vec!["x"]);
    assert_eq!(names(&normalize_tags("1:: 2::x", "base")), vec!["x"]);
    assert_eq!(names(&normalize_tags("1::a:2::b", "base")), vec!["a:2b"]);
}

#[test]
fn a_normalized_list_stays() {
    for text in [
        "1girl, 1::artist: Alpha  Painter, 0.5::b:c,:: 0.8::gamma 9x,::, year 2025,::  UPPER torso",
        "",
        "one",
        "2, 3::, 4::5",
        "\u{c9}TOILE \u{3000}\u{130}, 2::\u{39f}\u{394}\u{39f}\u{3a3}::, artist: \u{3a3}\u{391}\u{3a3}",
    ] {
        let first = normalize_tags(text, "base");
        let list = names(&first).join(", ");
        let again = normalize_tags(&list, "base");
        assert_eq!(names(&again), names(&first));
    }
    // but for artists whose names start with the prefix
    let artist = normalize_tags("artist:artist:x", "base");
    assert_eq!(names(&artist), vec!["artist:x"]);
    assert_eq!(names(&normalize_tags("artist:x", "base")), vec!["x"]);
}

#[test]
fn names_are_clean_beyond_ascii() {
    let text = "\u{c9}::T\u{2003}\u{a0}\u{c9},, 2::\u{39f}\u{3a3} :::\u{130}::, artist: \u{3000}\u{1e9e}\u{85}";
    let tags = normalize_tags(text, "char");
    for t in &tags {
        assert!(!t.name.is_empty() && !t.name.contains(',') && !t.name.contains("::"));
        assert_eq!(t.name.to_lowercase(), t.name);
        assert_eq!(t.name.split_whitespace().collect::<Vec<_>>().join(" "), t.name);
    }
    assert_eq!(names(&tags), vec!["\u{e9}t \u{e9}", "\u{3bf}\u{3c2} :i\u{307}", "\u{df}"]);
}

#[test]
fn lists_are_joined_by_commas() {
    for (a, b) in [
        ("red hair, artist: Bob", "bob, Red  HAIR, x"),
        ("1::a, b 5::", "2::c::, a, d 3::e"),
        ("", "x"),
        ("x", ""),
        ("\u{c9}, 2::y", "3::\u{e9}, z::"),
    ] {
        let first = normalize_tags(a, "base");
        let second = normalize_tags(b, "base");
        let both = normalize_tags(&format!("{a},{b}"), "base");
        let mut expected = names(&first);
        for n in names(&second) {
            if !expected.contains(&n) {
                expected.push(n);
            }
        }
        assert_eq!(names(&both), expected);
    }
    // a group left open reaches into the second list
    assert_eq!(names(&normalize_tags("1::x,year 2025::", "base")), vec!["x", "year 2025"]);
    assert_eq!(names(&normalize_tags("year 2025::", "base")), vec!["year"]);
}

#[test]
fn a_weight_around_a_list_changes_nothing() {
    for list in ["red hair, artist: Bob", "year 2025", "", ":x", "1girl", "\u{c9}t\u{c9} \u{3000}2, \u{661}a"] {
        for w in ["1", "0.5", "12.75"] {
            let group = format!("{w}::{list}::");
            assert_eq!(names(&normalize_tags(&group, "base")), names(&normalize_tags(list, "base")));
        }
    }
    // a number alone becomes a weight between colons
    assert!(normalize_tags("1::5::", "base").is_empty());
    assert_eq!(names(&normalize_tags("5", "base")), vec!["5"]);
}

#[test]
fn digits_of_other_scripts_count_as_digits() {
    assert_eq!(names(&normalize_tags("\u{0661}::a::", "base")), vec!["a"]);
}

#[test]
fn pairs_of_colons_go_from_left_to_right() {
    assert_eq!(names(&tags_of_plain("a:::b", "base")), vec!["a:b"]);
    assert_eq!(names(&tags_of_plain("a::::b", "base")), vec!["ab"]);
    assert_eq!(names(&tags_of_plain("1::x", "base")), vec!["1x"]);
}

#[test]
fn white_space_is_collapsed_and_case_lowered() {
    let tags = normalize_tags("  Long\t Hair \u{3000} ,BLUE  eyes", "base");
    assert_eq!(names(&tags), vec!["long hair", "blue eyes"]);
}

#[test]
fn capitals_beyond_ascii_are_lowered() {
    let tags = normalize_tags("\u{c9}TOILE, \u{130}", "base");
    assert_eq!(names(&tags), vec!["\u{e9}toile", "i\u{307}"]);
}

#[test]
fn names_come_once_and_blanks_not_at_all() {
    let tags = normalize_tags("smile, Smile ,, , artist:smile, artist:, artist:  ", "base");
    assert_eq!(names(&tags), vec!["smile"]);
    assert_eq!(tags[0].category, "general");
    assert!(normalize_tags("", "base").is_empty());
    assert!(normalize_tags(" , ::, 3::", "base").is_empty());
}

#[test]
fn artists_among_characters_stay_artists() {
    let tags = normalize_tags("knight, artist: Someone", "char");
    assert_eq!(names(&tags), vec!["knight", "someone"]);
    assert_eq!(tags[0].category, "char");
    assert_eq!(tags[1].category, "artist");
    assert_eq!(tags[1].source, "char");
}

#[test]
fn ascii_names_are_clean() {
    let tags = normalize_tags("A::B, 2::C:::D::, artist: E::F", "base");
    for t in &tags {
        assert!(!t.name.contains(',') && !t.name.contains("::"));
        assert!(!t.name.chars().any(|c| c.is_ascii_uppercase()));
        assert!(!t.name.is_empty());
    }
    assert_eq!(names(&tags), vec!["ab", "c:d", "ef"]);
}

#[test]
fn names_do_not_depend_on_the_source() {
    let text = "2::Red Hair, artist: Bob::, red  hair, \u{c9}clair";
    let base = normalize_tags(text, "base");
    for source in ["user", "char", ""] {
        let other = normalize_tags(text, source);
        assert_eq!(names(&base), names(&other));
        assert!(other.iter().all(|t| t.source == source));
    }
    assert_eq!(names(&base), vec!["red hair", "bob", "\u{e9}clair"]);
}
