use bfinterp::{generate_loop_lookup_table, symbols, Error, JumpTable};

#[test]
fn test_generate_loop_lookup_table() {
    let source_code = "[[]]";
    let result = generate_loop_lookup_table(source_code).unwrap();
    assert_eq!(result, vec![(1, 2), (0, 3)]);

    let source_code2 = "[[[]]]";
    let result2 = generate_loop_lookup_table(source_code2).unwrap();
    assert_eq!(result2, vec![(2, 3), (1, 4), (0, 5)]);

    let source_code3 = "[]]";
    let result3 = generate_loop_lookup_table(source_code3);
    assert!(result3.is_err());
    assert_eq!(result3.unwrap_err(), Error::MismatchedBrackets(2));
}

#[test]
fn nested_pairs_resolve_innermost_first() {
    assert_eq!(generate_loop_lookup_table("[[]]").unwrap(), vec![(1, 2), (0, 3)]);
    assert_eq!(
        generate_loop_lookup_table("[[[]]]").unwrap(),
        vec![(2, 3), (1, 4), (0, 5)]
    );
}

#[test]
fn orphan_close_is_reported_where_it_stands() {
    assert_eq!(generate_loop_lookup_table("[]]"), Err(Error::MismatchedBrackets(2)));
    assert_eq!(generate_loop_lookup_table("]["), Err(Error::MismatchedBrackets(0)));
}

#[test]
fn unclosed_open_reports_innermost_pending() {
    assert_eq!(generate_loop_lookup_table("[[]"), Err(Error::MismatchedBrackets(0)));
    assert_eq!(generate_loop_lookup_table("[+[[]-"), Err(Error::MismatchedBrackets(2)));
}

#[test]
fn orphan_close_wins_over_later_unclosed_open() {
    assert_eq!(generate_loop_lookup_table("+]["), Err(Error::MismatchedBrackets(1)));
}

#[test]
fn pair_count_equals_open_count_and_positions_are_distinct() {
    let src = "+[>[-]<[.]]";
    let pairs = generate_loop_lookup_table(src).unwrap();
    let opens = src.chars().filter(|c| *c == '[').count();
    assert_eq!(pairs.len(), opens);
    let mut seen: Vec<usize> = Vec::new();
    for (o, c) in pairs {
        assert!(!seen.contains(&o));
        assert!(!seen.contains(&c));
        seen.push(o);
        seen.push(c);
    }
    assert_eq!(seen.len(), 2 * opens);
}

#[test]
fn empty_and_bracketless_programs_resolve_to_nothing() {
    assert_eq!(generate_loop_lookup_table("").unwrap(), vec![]);
    assert_eq!(generate_loop_lookup_table("+-.,<>x").unwrap(), vec![]);
}

#[test]
fn jump_table_looks_up_both_directions() {
    let program = symbols("+[[-]>]");
    let table = JumpTable::build(&program).unwrap();
    assert_eq!(table.partner(1), Some(6));
    assert_eq!(table.partner(6), Some(1));
    assert_eq!(table.partner(2), Some(4));
    assert_eq!(table.partner(4), Some(2));
    assert_eq!(table.partner(0), None);
    assert_eq!(table.partner(3), None);
}

#[test]
fn jump_table_reports_mismatch() {
    let program = symbols("[[]");
    assert!(matches!(JumpTable::build(&program), Err(Error::MismatchedBrackets(0))));
}
