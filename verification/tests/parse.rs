use smolbotbot::names::{names_from_matches, parse_names};
use smolbotbot::numbers::{numbers_range, parse_numbers};
use smolbotbot::parse::{
    body_from_match, cw_from_captures, number_robots, parse_body, parse_cw, parse_group, ParseOut,
    ParsedGroup,
};
use smolbotbot::robot::{Robot, RobotName};

#[test]
fn test_parse_numbers() {
    assert_eq!(parse_numbers("123)"), Some(ParseOut::new("", 123..124)));
    assert_eq!(parse_numbers("123) Teabot"), Some(ParseOut::new("Teabot", 123..124)));
    assert_eq!(parse_numbers("  123  )  Teabot  "), Some(ParseOut::new("Teabot  ", 123..124)));
    assert_eq!(parse_numbers("-1)"), Some(ParseOut::new("", -1..0)));
    assert_eq!(parse_numbers("1, 2, 3)"), Some(ParseOut::new("", 1..4)));
    assert_eq!(parse_numbers("123-124)"), Some(ParseOut::new("", 123..125)));
    assert_eq!(parse_numbers("123 - 124)"), Some(ParseOut::new("", 123..125)));
    assert_eq!(parse_numbers("123 & 4)"), Some(ParseOut::new("", 123..125)));
    assert_eq!(parse_numbers("123 & 24)"), Some(ParseOut::new("", 123..125)));
    assert_eq!(parse_numbers("124 & 3)"), Some(ParseOut::new("", 123..125)));
    assert_eq!(parse_numbers("8, 7)"), Some(ParseOut::new("", 7..9)));
    assert_eq!(parse_numbers("124-123)"), Some(ParseOut::new("", 123..125)));
    assert_eq!(parse_numbers("1024 - 1048)"), Some(ParseOut::new("", 1024..1049)));
    assert_eq!(parse_numbers("1024, 5 & 6)"), Some(ParseOut::new("", 1024..1027)));
    assert_eq!(parse_numbers("1039, 8 & 40)"), Some(ParseOut::new("", 1038..1041)));
    assert_eq!(parse_numbers("123"), None);
    assert_eq!(parse_numbers("Foo baa"), None);
    assert_eq!(parse_numbers("2147483646)"), Some(ParseOut::new("", 2147483646..2147483647)));
    assert_eq!(parse_numbers("2147483647)"), None);
    assert_eq!(parse_numbers("2147483648)"), None);
    assert_eq!(parse_numbers("Hello)"), None);
    assert_eq!(parse_numbers("@foo 123)"), None);
    assert_eq!(parse_numbers("@foo123)"), None);
}

#[test]
fn test_parse_names() {
    assert_eq!(
        parse_names("Teabot. Brings you tea", 1),
        Some(ParseOut::new(". Brings you tea", (vec![RobotName{ prefix: "Tea".into(), suffix: "bot".into(), plural: None }], false)))
    );

    assert_eq!(
        parse_names("Mischiefbots. Oh no!!", 1),
        Some(ParseOut::new(". Oh no!!", (vec![RobotName{ prefix: "Mischief".into(), suffix: "bot".into(), plural: Some("s".into()) }], false)))
    );

    assert_eq!(
        parse_names("R.O.B.O.T.S.", 1),
        Some(ParseOut::new(".", (vec![RobotName{ prefix: "R.O.".into(), suffix: "B.O.T".into(), plural: Some(".S".into()) }], false)))
    );

    assert_eq!(
        parse_names("Saltbot and pepperbot.", 1),
        Some(ParseOut::new(" and pepperbot.", (vec![RobotName{ prefix: "Salt".into(), suffix: "bot".into(), plural: None }], false)))
    );

    assert_eq!(
        parse_names("Saltbot and pepperbot.", 2),
        Some(ParseOut::new(".", (vec![RobotName{ prefix: "Salt".into(), suffix: "bot".into(), plural: None }, RobotName{ prefix: "pepper".into(), suffix: "bot".into(), plural: None }], false)))
    );

    assert_eq!(
        parse_names("Saltbot and pepperbot.", 3),
        Some(ParseOut::new(".", (vec![RobotName{ prefix: "Salt".into(), suffix: "bot".into(), plural: None }, RobotName{ prefix: "pepper".into(), suffix: "bot".into(), plural: None }], false)))
    );

    assert_eq!(
        parse_names("Salt- and pepperbots.", 2),
        Some(ParseOut::new(".", (vec![RobotName{ prefix: "Salt".into(), suffix: "bot".into(), plural: Some("s".into()) }, RobotName{ prefix: "pepper".into(), suffix: "bot".into(), plural: Some("s".into()) }], true)))
    );
}

#[test]
fn test_parse_group() {
    assert_eq!(
        parse_group("1207) Transrightsbot. Is just here to let all its trans pals know that they are valid and they are loved! \u{1f3f3}\u{fe0f}\u{200d}\u{26a7}\u{fe0f}\u{2764}\u{fe0f}\u{1f916}"),
        Some(ParsedGroup { robots: vec![Robot { number: 1207, name: RobotName { prefix: "Transrights".into(), suffix: "bot".into(), plural: None } }], body: "Is just here to let all its trans pals know that they are valid and they are loved! \u{1f3f3}\u{fe0f}\u{200d}\u{26a7}\u{fe0f}\u{2764}\u{fe0f}\u{1f916}", cw: None })
    );

    assert_eq!(
        parse_group("558/9) Salt- and Pepperbots. Bring you salt and pepper."),
        Some(ParsedGroup { robots: vec![Robot { number: 558, name: RobotName { prefix: "Salt".into(), suffix: "bot".into(), plural: None } }, Robot { number: 559, name: RobotName { prefix: "Pepper".into(), suffix: "bot".into(), plural: None } }], body: "Bring you salt and pepper.", cw: None })
    );

    assert_eq!(
        parse_group("690 - 692) Marybot, Josephbot and Donkeybot. For complicated tax reasons, Marybot and Josephbot are forced to temporarily relocate to Bethlehem, just as Marybot recieves a mysterious package from Gabrielbot on behalf of Godbot Labs."),
        Some(ParsedGroup { robots: vec![Robot { number: 690, name: RobotName { prefix: "Mary".into(), suffix: "bot".into(), plural: None } }, Robot { number: 691, name: RobotName { prefix: "Joseph".into(), suffix: "bot".into(), plural: None } }, Robot { number: 692, name: RobotName { prefix: "Donkey".into(), suffix: "bot".into(), plural: None } }], body: "For complicated tax reasons, Marybot and Josephbot are forced to temporarily relocate to Bethlehem, just as Marybot recieves a mysterious package from Gabrielbot on behalf of Godbot Labs.", cw: None })
    );

    assert_eq!(
        parse_group("[CN: sexual assault] 651) Believeherbot. Reminds you to believe the testimony of women survivors of sexual assault; reminds you to look at the gendered power structures in place before you dismiss them as unreliable; reminds you that this is the fucking turning point."),
        Some(ParsedGroup { robots: vec![Robot { number: 651, name: RobotName { prefix: "Believeher".into(), suffix: "bot".into(), plural: None } }], body: "Reminds you to believe the testimony of women survivors of sexual assault; reminds you to look at the gendered power structures in place before you dismiss them as unreliable; reminds you that this is the fucking turning point.", cw: Some("sexual assault") })
    );
}

#[test]
fn single_number_gives_range_of_one() {
    assert_eq!(numbers_range(&[7]), Some(7..8));
    assert_eq!(numbers_range(&[-7]), Some(-7..-6));
    assert_eq!(numbers_range(&[0]), Some(0..1));
    assert_eq!(numbers_range(&[]), None);
}

#[test]
fn shorthand_keeps_leading_digits() {
    assert_eq!(numbers_range(&[1024, 5, 6]), Some(1024..1027));
    assert_eq!(numbers_range(&[558, 9]), Some(558..560));
    assert_eq!(numbers_range(&[-558, 9]), Some(-559..-557));
    assert_eq!(numbers_range(&[1039, 8, 40]), Some(1038..1041));
}

#[test]
fn range_outside_32_bits_is_rejected() {
    assert_eq!(numbers_range(&[2147483646, 9]), None);
    assert_eq!(numbers_range(&[i32::MAX]), None);
    assert_eq!(numbers_range(&[i32::MIN, 9]), None);
    assert_eq!(numbers_range(&[i32::MIN]), Some(i32::MIN..i32::MIN + 1));
}

#[test]
fn sign_counts_only_where_no_digit_comes_before() {
    assert_eq!(parse_numbers("-1-2)"), Some(ParseOut::new("", -2..0)));
    assert_eq!(parse_numbers("5, -3)"), Some(ParseOut::new("", -3..6)));
    assert_eq!(parse_numbers("-)"), None);
    assert_eq!(parse_numbers(")"), None);
    assert_eq!(parse_numbers("007)"), Some(ParseOut::new("", 7..8)));
    assert_eq!(parse_numbers("00000000000000000000012)"), Some(ParseOut::new("", 12..13)));
    assert_eq!(parse_numbers("-2147483647)"), Some(ParseOut::new("", -2147483647..-2147483646)));
    assert_eq!(parse_numbers("-2147483648)"), None);
    assert_eq!(parse_numbers("1) 2) 3"), Some(ParseOut::new("2) 3", 1..2)));
}

#[test]
fn content_warning_is_taken_from_the_front() {
    let out = parse_cw("[CN: food] 12) Cakebot.");
    assert_eq!(out, ParseOut::new("12) Cakebot.", Some("food")));
    let out = parse_cw("(cn:   loud noise  ) 12) Drumbot.");
    assert_eq!(out, ParseOut::new("12) Drumbot.", Some("loud noise")));
    let out = parse_cw("12) Cakebot.");
    assert_eq!(out, ParseOut::new("12) Cakebot.", None));
}

#[test]
fn parsing_is_total() {
    assert_eq!(parse_group(""), None);
    assert_eq!(parse_group("   "), None);
    assert_eq!(parse_group("Foo baa"), None);
    assert_eq!(parse_group("2147483647)"), None);
    assert_eq!(parse_group("12) no name here"), None);
    assert_eq!(parse_group("\u{1f916})"), None);
    assert_eq!(parse_group("12)"), None);
}

#[test]
fn no_more_than_five_robots() {
    let group = parse_group("1-9) Abot Bbot Cbot Dbot Ebot Fbot Gbot. Many.").unwrap();
    assert_eq!(group.robots.len(), 5);
    let numbers: Vec<i32> = group.robots.iter().map(|r| r.number).collect();
    assert_eq!(numbers, vec![1, 2, 3, 4, 5]);
    assert_eq!(group.robots[4].name.prefix, "E");
    assert_eq!(group.body, "Fbot Gbot. Many.");
}

#[test]
fn shortened_names_skip_and_and_numbers() {
    let out = parse_names("Salt-, 12 and Pepperbots.", 3).unwrap();
    let (names, partial) = out.output;
    assert!(partial);
    assert_eq!(names.len(), 2);
    assert_eq!(names[0].prefix, "Salt");
    assert_eq!(names[1].prefix, "Pepper");
    let out = parse_names("One- Two- Three- and Fourbots.", 3).unwrap();
    let prefixes: Vec<&str> = out.output.0.iter().map(|n| n.prefix).collect();
    assert_eq!(prefixes, vec!["One", "Two", "Four"]);
    assert_eq!(parse_names("Teabot", 0), None);
    assert_eq!(parse_names("nothing", 2), None);
}

#[test]
fn and_is_skipped_in_any_case() {
    let out = parse_names("Salt- AND Pepperbots.", 3).unwrap();
    let prefixes: Vec<&str> = out.output.0.iter().map(|n| n.prefix).collect();
    assert_eq!(prefixes, vec!["Salt", "Pepper"]);
    let out = parse_names("Salt- And Pepperbots.", 3).unwrap();
    assert_eq!(out.output.0.len(), 2);
    let out = parse_names("Salt- Andy Pepperbots.", 3).unwrap();
    let prefixes: Vec<&str> = out.output.0.iter().map(|n| n.prefix).collect();
    assert_eq!(prefixes, vec!["Salt", "Andy", "Pepper"]);
}

#[test]
fn announcements() {
    let group = parse_group("1207) Transrightsbot. Is just here to ...").unwrap();
    assert_eq!(group.robots, vec![Robot { number: 1207, name: RobotName { prefix: "Transrights", suffix: "bot", plural: None } }]);
    assert_eq!(group.body, "Is just here to ...");
    assert_eq!(group.cw, None);

    let group = parse_group("558/9) Salt- and Pepperbots. Bring you salt and pepper.").unwrap();
    assert_eq!(
        group.robots,
        vec![
            Robot { number: 558, name: RobotName { prefix: "Salt", suffix: "bot", plural: None } },
            Robot { number: 559, name: RobotName { prefix: "Pepper", suffix: "bot", plural: None } },
        ]
    );
    assert_eq!(group.body, "Bring you salt and pepper.");

    let group = parse_group("[CN: sexual assault] 651) Believeherbot. Reminds you...").unwrap();
    assert_eq!(group.cw, Some("sexual assault"));
    assert_eq!(group.robots.len(), 1);
    assert_eq!(group.robots[0].number, 651);
    assert_eq!(group.robots[0].name.prefix, "Believeher");

    assert_eq!(parse_group("Foo baa"), None);
    assert_eq!(parse_group("2147483647)"), None);

    let group = parse_group("690 - 692) Marybot, Josephbot and Donkeybot.").unwrap();
    let robots: Vec<(i32, &str)> = group.robots.iter().map(|r| (r.number, r.name.prefix)).collect();
    assert_eq!(robots, vec![(690, "Mary"), (691, "Joseph"), (692, "Donkey")]);
    assert_eq!(group.body, "");
}

#[test]
fn header_ranges() {
    assert_eq!(parse_numbers("1024, 5 & 6)").unwrap().output, 1024..1027);
    assert_eq!(parse_numbers("558/9)").unwrap().output, 558..560);
    for n in [0, 1, 9, 10, 1207, 2147483646] {
        let header = format!("{})", n);
        assert_eq!(parse_numbers(&header).unwrap().output, n..n + 1);
    }
    for n in [1, 10, 1207, 2147483647] {
        let header = format!("-{})", n);
        assert_eq!(parse_numbers(&header).unwrap().output, -n..-n + 1);
    }
}

#[test]
fn names_are_cut_at_the_spans_of_the_matches() {
    //          0         1         2
    //          0123456789012345678901234
    let text = "Salt- and Pepperbots. Go.";
    let matches = vec![vec![Some((10, 20)), Some((10, 16)), Some((16, 19)), Some((19, 20))]];
    let out = names_from_matches(text, &matches, 2).unwrap();
    assert_eq!(out.remainder, ". Go.");
    let (names, partial) = out.output;
    assert!(partial);
    assert_eq!(
        names,
        vec![
            RobotName { prefix: "Salt", suffix: "bot", plural: Some("s") },
            RobotName { prefix: "Pepper", suffix: "bot", plural: Some("s") },
        ]
    );
    let out = names_from_matches(text, &matches, 1).unwrap();
    assert_eq!(out.output, (vec![RobotName { prefix: "Pepper", suffix: "bot", plural: Some("s") }], false));

    let text = "Abot Bbot";
    let matches = vec![
        vec![Some((0, 4)), Some((0, 1)), Some((1, 4)), None],
        vec![Some((5, 9)), Some((5, 6)), Some((6, 9)), None],
    ];
    let out = names_from_matches(text, &matches, 1).unwrap();
    assert_eq!(out.remainder, " Bbot");
    assert_eq!(out.output.0.len(), 1);
    let out = names_from_matches(text, &matches, 5).unwrap();
    assert_eq!(out.remainder, "");
    assert_eq!(out.output, (vec![
        RobotName { prefix: "A", suffix: "bot", plural: None },
        RobotName { prefix: "B", suffix: "bot", plural: None },
    ], false));
    assert_eq!(names_from_matches(text, &matches, 0), None);
    assert_eq!(names_from_matches(text, &Vec::new(), 3), None);
    let short = vec![vec![Some((0, 4)), Some((0, 1)), Some((1, 4))]];
    assert_eq!(names_from_matches(text, &short, 3), None);
    let hollow = vec![vec![Some((0, 4)), None, Some((1, 4)), None]];
    assert_eq!(names_from_matches(text, &hollow, 3), None);
}

#[test]
fn warning_and_body_are_cut_at_their_spans() {
    let text = "x [CN:  food ]  12) Cakebot.";
    let out = cw_from_captures(text, &Some(vec![Some((2, 14)), Some((8, 13))]));
    assert_eq!(out, ParseOut::new("12) Cakebot.", Some("food")));
    assert_eq!(cw_from_captures(text, &None), ParseOut::new(text, None));
    assert_eq!(cw_from_captures(text, &Some(vec![Some((2, 14))])), ParseOut::new(text, None));
    assert_eq!(cw_from_captures(text, &Some(vec![Some((2, 14)), None])), ParseOut::new(text, None));

    assert_eq!(body_from_match(". Brings tea.", Some((2, 13))), "Brings tea.");
    assert_eq!(body_from_match(". Brings tea.", None), "");
    assert_eq!(parse_body(". Brings tea.\nAnd more."), "And more.");
    assert_eq!(parse_body(". \u{e9}t\u{e9} 1"), "\u{e9}t\u{e9} 1");
    assert_eq!(parse_body("..."), "");
}

#[test]
fn robots_are_numbered_in_order() {
    let names = vec![
        RobotName { prefix: "Salt", suffix: "bot", plural: Some("s") },
        RobotName { prefix: "Pepper", suffix: "bot", plural: Some("s") },
    ];
    assert_eq!(
        number_robots(-1, &names, false),
        vec![Robot { number: -1, name: names[0] }, Robot { number: 0, name: names[1] }]
    );
    assert_eq!(
        number_robots(558, &names, true),
        vec![
            Robot { number: 558, name: RobotName { prefix: "Salt", suffix: "bot", plural: None } },
            Robot { number: 559, name: RobotName { prefix: "Pepper", suffix: "bot", plural: None } },
        ]
    );
    assert_eq!(number_robots(i32::MAX, &Vec::new(), true), Vec::new());
}
