use oflh::model::{Identity, Process, Usage};
use oflh::ranking::{sort_rows, sort_rows_named, Row, Sort};

fn named(pid: u32, name: &str) -> Process {
    let mut p = Process::default();
    p.identity = Identity { pid, started: 1, started_sub: 0 };
    p.name = name.into();
    p.usages = vec![Usage { path: b"/x".to_vec(), ..Usage::default() }];
    p
}

fn pids(rows: &[Row], ps: &[Process]) -> Vec<u32> {
    rows.iter().map(|r| ps[r.process].identity.pid).collect()
}

#[test]
fn names_sort_case_insensitively_and_by_given_keys() {
    let ps = vec![named(30, "beta"), named(10, "Alpha"), named(20, "alpha")];
    let rows: Vec<Row> = (0..3).map(|i| Row { process: i, usages: vec![0], score: 0, port: None }).collect();
    assert_eq!(pids(&sort_rows(&rows, &ps, Sort::Name), &ps), [10, 20, 30]);
    assert_eq!(pids(&sort_rows(&rows, &ps, Sort::Pid), &ps), [10, 20, 30]);
    let keys: Vec<Vec<char>> = ["a", "c", "b"].iter().map(|k| k.chars().collect()).collect();
    assert_eq!(pids(&sort_rows_named(&rows, &ps, &keys, Sort::Name), &ps), [30, 20, 10]);
}
