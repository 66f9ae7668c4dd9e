use cpgparser::parse_prefix;
use cpgparser::Expected;
use cpgparser::KeyParser;
use cpgparser::Rule;
use cpgparser::Token;

fn field(m: &cpgparser::ParsedFields, rule: Rule) -> Option<&str> {
    m.get(rule).map(|s| s.as_str())
}

#[test]
fn check_smaple_001() {
    let prefix: String = "cpg0000-jump-pilot/source_4/images/2020_11_04_CPJUMP1/illum/BR00116991/BR00116991_IllumHighZBF.npy".to_string();
    let _ = parse_prefix(&prefix);
}

#[test]
fn check_smaple_002() {
    let prefix: String =
        "cpg0037-oasis/axiom/workspace/scratch/prod_25/plate_41002688/biochem.parquet".to_string();
    let res = parse_prefix(&prefix);
    println!("{:?}", res);
}

#[test]
fn images_branch_fields() {
    let input = "cpg0000-jump-pilot/source_4/images/2020_11_04_CPJUMP1/illum/BR00116991/BR00116991_IllumHighZBF.npy";
    let m = parse_prefix(input).expect("a valid images-branch key");
    assert_eq!(field(&m, Rule::Key), Some(input));
    assert_eq!(field(&m, Rule::Dataset), Some("cpg0000-jump-pilot"));
    assert_eq!(field(&m, Rule::Source), Some("source_4"));
    assert_eq!(field(&m, Rule::Batch), Some("2020_11_04_CPJUMP1"));
    assert_eq!(field(&m, Rule::Plate), Some("BR00116991"));
    assert_eq!(field(&m, Rule::Filename), Some("BR00116991_IllumHighZBF.npy"));
    assert_eq!(field(&m, Rule::Workspace), None);
    assert_eq!(field(&m, Rule::Seg), None);
}

#[test]
fn workspace_branch_fields() {
    let input = "cpg0037-oasis/axiom/workspace/scratch/prod_25/plate_41002688/biochem.parquet";
    let m = parse_prefix(input).expect("a valid workspace-branch key");
    assert_eq!(field(&m, Rule::Key), Some(input));
    assert_eq!(field(&m, Rule::Dataset), Some("cpg0037-oasis"));
    assert_eq!(field(&m, Rule::Source), Some("axiom"));
    assert_eq!(field(&m, Rule::Workspace), Some("workspace"));
    assert_eq!(field(&m, Rule::Plate), Some("plate_41002688"));
    assert_eq!(field(&m, Rule::Filename), Some("biochem.parquet"));
    assert_eq!(field(&m, Rule::Batch), None);
}

#[test]
fn repeated_seg_keeps_last_occurrence() {
    // `scratch` and `prod_25` both match the `seg` rule; only the last
    // completed occurrence survives the single-slot capture.
    let input = "cpg0037-oasis/axiom/workspace/scratch/prod_25/plate_41002688/biochem.parquet";
    let m = parse_prefix(input).expect("a valid workspace-branch key");
    assert_eq!(field(&m, Rule::Seg), Some("prod_25"));
}

#[test]
fn empty_input_fails_at_zero() {
    let e = parse_prefix("").expect_err("the empty string holds no key");
    assert_eq!(e.pos, 0);
    assert_eq!(e.expected, vec![Expected::LitCpg]);
}

#[test]
fn invalid_key_fails_where_mismatch_begins() {
    let e = parse_prefix("not-a-valid/key").expect_err("no dataset identifier");
    assert_eq!(e.pos, 0);
    assert_eq!(e.expected, vec![Expected::LitCpg]);
}

#[test]
fn truncated_key_fails_at_its_length() {
    // Valid prefixes of valid keys, cut short: the reported offset is
    // the length of the prefix.
    let cases: Vec<(&str, Expected)> = vec![
        ("cpg", Expected::Digit),
        ("cpg0000", Expected::Dash),
        ("cpg0000-", Expected::IdentChar),
        ("cpg0000-jump-pilot", Expected::Slash),
        ("cpg0000-jump-pilot/", Expected::IdentChar),
        ("cpg0000-jump-pilot/source_4", Expected::Slash),
    ];
    for (input, expected) in cases {
        let e = parse_prefix(input).expect_err("a truncated key");
        assert_eq!(e.pos, input.len(), "offset for {:?}", input);
        assert!(e.expected.contains(&expected), "expected set for {:?}: {:?}", input, e.expected);
    }
}

#[test]
fn truncated_branch_reports_furthest_failure() {
    // The images branch got as far as the missing batch identifier;
    // the workspace alternative failed earlier and is not reported.
    let input = "cpg0000-jump-pilot/source_4/images/";
    let e = parse_prefix(input).expect_err("no batch identifier");
    assert_eq!(e.pos, 35);
    assert_eq!(e.pos, input.len());
    assert_eq!(e.expected, vec![Expected::IdentChar]);
}

#[test]
fn tail_choice_merges_expected_constructs() {
    // Both tail alternatives fail at the same offset: the error joins
    // what each expected there.
    let e = parse_prefix("cpg0-a/b/c.d").expect_err("neither images nor workspace");
    assert_eq!(e.pos, 9);
    assert_eq!(e.expected, vec![Expected::LitImages, Expected::LitWorkspace]);
}

#[test]
fn filename_needs_an_extension() {
    let e = parse_prefix("cpg0-a/b/images/c/illum/d/npy").expect_err("no extension");
    assert_eq!(e.pos, 29);
    assert_eq!(e.expected, vec![Expected::Dot]);
}

#[test]
fn trailing_slash_is_rejected() {
    let e = parse_prefix("cpg0-a/b/images/c/illum/d/e.f/").expect_err("trailing separator");
    assert_eq!(e.pos, 29);
    assert_eq!(e.expected, vec![Expected::EndOfInput]);
}

#[test]
fn token_stream_of_minimal_key() {
    let input = "cpg0-a/b/images/c/illum/d/e.f";
    let tokens = KeyParser::parse(input).expect("a minimal valid key");
    let want = vec![
        Token::Start { rule: Rule::Key, pos: 0 },
        Token::Start { rule: Rule::Dataset, pos: 0 },
        Token::End { rule: Rule::Dataset, pos: 6 },
        Token::Start { rule: Rule::Source, pos: 7 },
        Token::End { rule: Rule::Source, pos: 8 },
        Token::Start { rule: Rule::Batch, pos: 16 },
        Token::End { rule: Rule::Batch, pos: 17 },
        Token::Start { rule: Rule::Plate, pos: 24 },
        Token::End { rule: Rule::Plate, pos: 25 },
        Token::Start { rule: Rule::Filename, pos: 26 },
        Token::End { rule: Rule::Filename, pos: 29 },
        Token::End { rule: Rule::Key, pos: 29 },
    ];
    assert_eq!(tokens, want);
}

#[test]
fn token_offsets_are_well_nested() {
    // Every end offset is at least its paired start offset, and every
    // end closes an open start of its own rule.
    let input = "cpg0037-oasis/axiom/workspace/scratch/prod_25/plate_41002688/biochem.parquet";
    let tokens = KeyParser::parse(input).expect("a valid key");
    let mut stack: Vec<(Rule, usize)> = Vec::new();
    for t in tokens {
        match t {
            Token::Start { rule, pos } => stack.push((rule, pos)),
            Token::End { rule, pos } => {
                let (r, p) = stack.pop().expect("an open invocation");
                assert_eq!(r, rule);
                assert!(p <= pos);
            }
        }
    }
    assert!(stack.is_empty());
}

#[test]
fn extraction_overwrites_unmatched_starts() {
    // Two starts of the same rule before one end: the later start wins.
    let input = "abcdef";
    let events = vec![
        Token::Start { rule: Rule::Seg, pos: 0 },
        Token::Start { rule: Rule::Seg, pos: 2 },
        Token::End { rule: Rule::Seg, pos: 4 },
    ];
    let m = cpgparser::extract(input, &events);
    assert_eq!(field(&m, Rule::Seg), Some("cd"));
}

#[test]
fn extraction_ignores_end_without_start() {
    let input = "abcdef";
    let events = vec![Token::End { rule: Rule::Plate, pos: 3 }];
    let m = cpgparser::extract(input, &events);
    assert_eq!(field(&m, Rule::Plate), None);
}

#[test]
fn extraction_keeps_last_completed_pair() {
    let input = "abcdef";
    let events = vec![
        Token::Start { rule: Rule::Seg, pos: 0 },
        Token::End { rule: Rule::Seg, pos: 2 },
        Token::Start { rule: Rule::Seg, pos: 3 },
        Token::End { rule: Rule::Seg, pos: 5 },
    ];
    let m = cpgparser::extract(input, &events);
    assert_eq!(field(&m, Rule::Seg), Some("de"));
}

#[test]
fn parsing_twice_is_deterministic() {
    let input = "cpg0000-jump-pilot/source_4/images/2020_11_04_CPJUMP1/illum/BR00116991/BR00116991_IllumHighZBF.npy";
    let m1 = parse_prefix(input).expect("a valid key");
    let m2 = parse_prefix(input).expect("a valid key");
    for rule in [
        Rule::Key,
        Rule::Dataset,
        Rule::Source,
        Rule::Batch,
        Rule::Plate,
        Rule::Workspace,
        Rule::Seg,
        Rule::Filename,
    ] {
        assert_eq!(field(&m1, rule), field(&m2, rule));
    }
    let bad = "cpg0000-jump-pilot/source_4/images/";
    let e1 = parse_prefix(bad).expect_err("a truncated key");
    let e2 = parse_prefix(bad).expect_err("a truncated key");
    assert_eq!(e1, e2);
}

#[test]
fn fields_reassemble_into_the_key() {
    // Round trip for the images branch: the fixed literals of the
    // grammar plus the extracted fields rebuild the key, and parsing
    // the rebuilt key returns the same fields.
    let input = "cpg0000-jump-pilot/source_4/images/2020_11_04_CPJUMP1/illum/BR00116991/BR00116991_IllumHighZBF.npy";
    let m = parse_prefix(input).expect("a valid images-branch key");
    let rebuilt = format!(
        "{}/{}/images/{}/illum/{}/{}",
        field(&m, Rule::Dataset).unwrap(),
        field(&m, Rule::Source).unwrap(),
        field(&m, Rule::Batch).unwrap(),
        field(&m, Rule::Plate).unwrap(),
        field(&m, Rule::Filename).unwrap(),
    );
    assert_eq!(rebuilt, input);
    let m2 = parse_prefix(&rebuilt).expect("the rebuilt key");
    assert_eq!(field(&m2, Rule::Filename), field(&m, Rule::Filename));
    assert_eq!(field(&m2, Rule::Plate), field(&m, Rule::Plate));
}

#[test]
fn rule_names() {
    assert_eq!(Rule::Key.name(), "key");
    assert_eq!(Rule::Dataset.name(), "dataset");
    assert_eq!(Rule::Source.name(), "source");
    assert_eq!(Rule::Batch.name(), "batch");
    assert_eq!(Rule::Plate.name(), "plate");
    assert_eq!(Rule::Workspace.name(), "workspace");
    assert_eq!(Rule::Seg.name(), "seg");
    assert_eq!(Rule::Filename.name(), "filename");
}

#[test]
fn entries_expose_the_recorded_fields() {
    let input = "cpg0037-oasis/axiom/workspace/scratch/prod_25/plate_41002688/biochem.parquet";
    let m = parse_prefix(input).expect("a valid key");
    let entries = m.entries();
    assert!(entries.iter().any(|(r, v)| *r == Rule::Plate && v == "plate_41002688"));
    assert!(entries.iter().any(|(r, v)| *r == Rule::Workspace && v == "workspace"));
}
