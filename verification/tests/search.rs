use red_engine2::search::{
    adr_doc, chunk_markdown, command_docs, diverse_picks, doc_frequency, expand, matching, render, stem, term_count, tokens, tokens_snake,
    stem_chars, tokens_of_chars, CommandArg, CommandInfo, Doc, DocTokens, Hit, STOP, SYNONYMS,
};

fn s(v: &[&str]) -> Vec<String> {
    v.iter().map(|x| x.to_string()).collect()
}

#[test]
fn stemming_and_synonyms_bridge_query_wording() {
    assert_eq!(stem("stairs"), "stair");
    assert_eq!(stem("doors"), "door");
    // "template" reaches the prefab documentation through its synonyms.
    let q = expand("reusable template object");
    assert!(q.contains(&("template".to_string(), true)));
    assert!(q.contains(&("prefab".to_string(), false)));
}

#[test]
fn stemming_strips_one_common_ending_from_long_enough_words() {
    assert_eq!(stem("libraries"), "library");
    assert_eq!(stem("Running"), "runn");
    assert_eq!(stem("boxes"), "box");
    assert_eq!(stem("pushed"), "push");
    assert_eq!(stem("bus"), "bus", "too short to strip");
    assert_eq!(stem("ties"), "tie", "too short for -ies, long enough for -s");
    assert_eq!(stem("STAIR"), "stair");
    assert_eq!(stem(""), "");
}

#[test]
fn tokens_drop_stop_words_and_split_compounds() {
    assert_eq!(tokens("How do I add a door?"), s(&["door"]));
    assert_eq!(tokens("wall-mounted lamps"), s(&["wall-mount", "wall", "mount", "lamp"]));
    assert_eq!(tokens("x y z"), Vec::<String>::new(), "one-letter words are not terms");
    assert_eq!(tokens("chair_folding"), s(&["chair", "fold"]));
    assert_eq!(tokens_snake("chair_folding"), s(&["chair", "fold"]));
    assert_eq!(tokens_snake("ground_height_at(x)"), s(&["ground", "height", "at"]));
    for w in STOP {
        if w != "does" {
            assert!(tokens(w).is_empty(), "{w}");
        }
    }
    // Stop words are matched after stemming, and "does" stems to "doe".
    assert_eq!(tokens("does"), s(&["doe"]));
}

#[test]
fn queries_expand_with_reduced_weight_synonyms() {
    let q = expand("stairs");
    assert_eq!(q[0], ("stair".to_string(), true));
    let syn: Vec<&str> = q[1..].iter().map(|(t, w)| {
        assert!(!w);
        t.as_str()
    }).collect();
    assert_eq!(syn, vec!["stair", "staircase", "step", "rise", "run", "land"]);
    assert!(expand("the a of").is_empty());
    assert_eq!(expand("zebra"), vec![("zebra".to_string(), true)]);
    assert_eq!(SYNONYMS.len(), 35);
}

#[test]
fn markdown_is_cut_into_sections() {
    let mut docs: Vec<Doc> = Vec::new();
    chunk_markdown("g.md", "glossary", "intro\n# Title\nline\n\n## Sub\nx\n", &mut docs);
    let got: Vec<(&str, &str, &str, &str)> =
        docs.iter().map(|d| (d.kind, d.title.as_str(), d.body.as_str(), d.loc.as_str())).collect();
    assert_eq!(
        got,
        vec![
            ("glossary", "(top)", "intro", "g.md:1"),
            ("glossary", "Title", "# Title\nline\n", "g.md:2"),
            ("glossary", "Sub", "## Sub\nx", "g.md:5"),
        ]
    );
    assert!(docs.iter().all(|d| d.extra.is_empty()));
}

#[test]
fn long_sections_are_cut_every_28_lines_and_blank_ones_dropped() {
    let mut text = String::from("\n  \n# Big\n");
    for i in 0..59 {
        text.push_str(&format!("line {i}\n"));
    }
    text.push_str("#!shebang is not a heading\n");
    let mut docs: Vec<Doc> = Vec::new();
    chunk_markdown("f.md", "doc", &text, &mut docs);
    let locs: Vec<&str> = docs.iter().map(|d| d.loc.as_str()).collect();
    // The blank text before the first heading makes no document; "# Big", its 59 lines and the
    // "#!" line make 61 lines: 28 + 28 + 5.
    assert_eq!(locs, vec!["f.md:3", "f.md:31", "f.md:59"]);
    assert!(docs.iter().all(|d| d.title == "Big"));
    assert_eq!(docs[0].body.lines().count(), 28);
    assert_eq!(docs[2].body.lines().count(), 5);
    assert!(docs[2].body.ends_with("#!shebang is not a heading"));
    // A bare "#" is a heading with an empty title.
    let mut more: Vec<Doc> = Vec::new();
    chunk_markdown("h.md", "doc", "#\ntext", &mut more);
    assert_eq!((more[0].title.as_str(), more[0].body.as_str(), more[0].loc.as_str()), ("", "#\ntext", "h.md:1"));
}

#[test]
fn term_statistics() {
    let toks = s(&["door", "wall", "door"]);
    assert_eq!(term_count(&toks, &"door".to_string()), 2);
    assert_eq!(term_count(&toks, &"roof".to_string()), 0);
    let docs: Vec<DocTokens> = vec![
        (s(&["door"]), vec![], vec![]),
        (vec![], s(&["wall", "door"]), vec![]),
        (vec![], vec![], s(&["roof"])),
    ];
    assert_eq!(doc_frequency(&docs, &"door".to_string()), 2);
    assert_eq!(doc_frequency(&docs, &"roof".to_string()), 1);
    assert_eq!(doc_frequency(&docs, &"floor".to_string()), 0);
}

#[test]
fn at_most_four_hits_of_a_kind_unless_filtered() {
    let kinds = vec!["doc", "doc", "doc", "doc", "doc", "adr", "doc", "asset"];
    assert_eq!(diverse_picks(&kinds, false, 10), vec![0, 1, 2, 3, 5, 7]);
    assert_eq!(diverse_picks(&kinds, true, 10), vec![0, 1, 2, 3, 4, 5, 6, 7]);
    assert_eq!(diverse_picks(&kinds, false, 3), vec![0, 1, 2]);
    assert!(diverse_picks(&kinds, false, 0).is_empty(), "a limit of zero shows nothing");
    assert!(diverse_picks(&Vec::new(), false, 5).is_empty());
}

#[test]
fn rendering_hits_and_the_empty_answer() {
    assert_eq!(
        render(&Vec::new(), "zebra"),
        "nothing found for 'zebra'. Try other words, or `red_engine2 describe` for the topic list.\n"
    );
    let d = Doc { kind: "doc", title: "Doors".into(), body: String::new(), loc: "GUIDE.md:10".into(), extra: String::new() };
    let long = "x".repeat(200);
    let fragment = format!("a\nb\nc\nd\ne\nf\ng\nh\n{long}");
    let out = render(&vec![Hit { doc: &d, fragment }, Hit { doc: &d, fragment: long.clone() }], "q");
    let clipped = "x".repeat(150);
    assert_eq!(
        out,
        format!(
            "[doc] Doors\n    a\n    b\n    c\n    d\n    e\n    f\n    g\n    -> GUIDE.md:10\n[doc] Doors\n    {clipped}\n    -> GUIDE.md:10\n"
        )
    );
}

#[test]
fn commands_become_documents() {
    let cmds = vec![
        CommandInfo {
            name: Some("lint".into()),
            about: Some("Static map checker".into()),
            args: vec![
                CommandArg { name: Some("--strict".into()), help: Some("fail on warnings".into()) },
                CommandArg { name: None, help: Some("path".into()) },
            ],
        },
        CommandInfo { name: None, about: None, args: vec![] },
    ];
    let docs = command_docs(&cmds);
    assert_eq!(docs.len(), 2);
    assert_eq!(docs[0].kind, "command");
    assert_eq!(docs[0].title, "command `lint`");
    assert_eq!(docs[0].body, "Static map checker\n--strict fail on warnings\n path");
    assert_eq!(docs[0].loc, "red_engine2 lint --help");
    assert_eq!(docs[0].extra, "lint");
    assert_eq!(docs[1].title, "command `?`");
    assert_eq!(docs[1].body, "\n");
    assert_eq!(docs[1].loc, "red_engine2 ? --help");
}

#[test]
fn decision_records_become_one_document_each() {
    let d = adr_doc("0011-two.md", "# 0011. Two characters\n\nStatus: accepted\r\n## Context\n");
    assert_eq!(d.kind, "adr");
    assert_eq!(d.title, "ADR 0011. Two characters");
    assert_eq!(d.body, "\nStatus: accepted\n## Context");
    assert_eq!(d.loc, "docs/adr/0011-two.md");
    assert_eq!(d.extra, "0011. Two characters");
    let e = adr_doc("x.md", "");
    assert_eq!((e.title.as_str(), e.body.as_str(), e.extra.as_str()), ("ADR ", "", ""));
}

#[test]
fn only_documents_of_the_asked_kind_holding_a_term_can_be_hits() {
    let toks: Vec<DocTokens> = vec![
        (s(&["door"]), vec![], vec![]),
        (vec![], s(&["wall"]), vec![]),
        (vec![], vec![], s(&["door", "roof"])),
        (vec![], vec![], vec![]),
    ];
    let kinds = vec!["doc", "doc", "adr", "doc"];
    let terms = s(&["door", "roof"]);
    assert_eq!(matching(&toks, &kinds, &terms, None), vec![0, 2]);
    assert_eq!(matching(&toks, &kinds, &terms, Some("adr")), vec![2]);
    assert_eq!(matching(&toks, &kinds, &terms, Some("asset")), Vec::<usize>::new());
    assert_eq!(matching(&toks, &kinds, &Vec::new(), None), Vec::<usize>::new());
}

#[test]
fn stems_and_terms_of_character_lists() {
    let chars = |w: &str| w.chars().collect::<Vec<char>>();
    assert_eq!(stem_chars(&chars("stairs")), chars("stair"));
    assert_eq!(stem_chars(&chars("libraries")), chars("library"));
    assert_eq!(tokens_of_chars(&chars("wall-mounted lamps")), vec![chars("wall-mount"), chars("wall"), chars("mount"), chars("lamp")]);
}
