use iox_core::sql_cases::{batches_sorted_eq, run_sql_error_test_case, run_sql_test_case};

fn lines(lines: &[&str]) -> Vec<String> {
    lines.iter().map(|line| line.to_string()).collect()
}

fn expected() -> Vec<String> {
    lines(&[
        "+---------+-------+",
        "| town    | count |",
        "+---------+-------+",
        "| andover | 40000 |",
        "| reading | 632   |",
        "+---------+-------+",
    ])
}

fn reordered() -> Vec<String> {
    let mut reordered = expected();
    reordered.swap(3, 4);
    reordered
}

#[test]
fn rows_may_come_in_any_order() {
    assert!(batches_sorted_eq(&expected(), &expected()));
    assert!(batches_sorted_eq(&expected(), &reordered()));

    let mut twice = expected();
    twice[4] = twice[3].clone();
    assert!(!batches_sorted_eq(&expected(), &twice));
    assert!(!batches_sorted_eq(&twice, &expected()));
    assert!(!batches_sorted_eq(&expected(), &expected()[..5]));
    assert!(!batches_sorted_eq(&expected()[..5], &expected()));

    // the header stays where it is
    let mut header_moved = expected();
    header_moved.swap(1, 3);
    assert!(!batches_sorted_eq(&expected(), &header_moved));
}

#[test]
fn short_tables_are_compared_line_by_line() {
    assert!(batches_sorted_eq(&lines(&["++", "++"]), &lines(&["++", "++"])));
    assert!(!batches_sorted_eq(&lines(&["a", "b", "c"]), &lines(&["a", "c", "b"])));
    assert!(batches_sorted_eq(&[], &[]));
}

#[test]
fn a_case_holds_in_every_scenario() {
    assert_eq!(run_sql_test_case(&expected(), &[expected(), reordered()]), None);
    assert_eq!(
        run_sql_test_case(&expected(), &[expected(), lines(&["++", "++"]), lines(&[])]),
        Some(1),
    );
    assert_eq!(run_sql_test_case(&expected(), &[]), None);
}

#[test]
fn a_query_fails_as_expected() {
    let message = "Unsupported logical plan: CreateExternalTable";
    let failed = Err(format!("Error during planning: {}!", message));
    assert_eq!(run_sql_error_test_case(message, &[failed.clone(), failed.clone()]), None);
    assert_eq!(run_sql_error_test_case(message, &[failed.clone(), Ok(())]), Some(1));
    assert_eq!(
        run_sql_error_test_case(message, &[Err("Unsupported".to_owned()), failed]),
        Some(0),
    );
    assert_eq!(run_sql_error_test_case("", &[Err(String::new())]), None);
}
