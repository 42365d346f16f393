use mtrm::procstat::{
    has_lingering_tty_processes_for_interrupted_group, lingering_tty_processes_for_interrupted_group,
    parse_proc_stat_summary, ProcSummary,
};
use mtrm::shell::interrupted_group;

#[test]
fn stat_summary_reads_fields_after_the_command_name() {
    let stat = "1234 (bash) S 1200 1234 1234 34816 1300 4194304 1 2 3";
    assert_eq!(parse_proc_stat_summary(stat), Some(("S".to_string(), 1200, 1234, 1234)));
}

#[test]
fn stat_summary_uses_the_last_closing_parenthesis() {
    let stat = "77 (odd) name) (x) R 1 -5 +6 0";
    assert_eq!(parse_proc_stat_summary(stat), Some(("R".to_string(), 1, -5, 6)));
}

#[test]
fn stat_summary_skips_any_white_space_between_fields() {
    let stat = "9 (sh) \t T  \n 42\u{a0}7 8";
    assert_eq!(parse_proc_stat_summary(stat), Some(("T".to_string(), 42, 7, 8)));
}

#[test]
fn stat_summary_refuses_bad_or_missing_fields() {
    assert_eq!(parse_proc_stat_summary("no parenthesis here"), None);
    assert_eq!(parse_proc_stat_summary("1 (sh) S 1 2"), None);
    assert_eq!(parse_proc_stat_summary("1 (sh) S -1 2 3"), None);
    assert_eq!(parse_proc_stat_summary("1 (sh) S 4294967296 2 3"), None);
    assert_eq!(parse_proc_stat_summary("1 (sh) S 4294967295 2147483648 3"), None);
    assert_eq!(parse_proc_stat_summary("1 (sh) S 4294967295 -2147483648 3"), Some(("S".to_string(), 4294967295, -2147483648, 3)));
    assert_eq!(parse_proc_stat_summary("1 (sh) S + 2 3"), None);
    assert_eq!(parse_proc_stat_summary("1 (sh)S 1 2 3"), None);
}

fn process(pid: u32, group: i32) -> ProcSummary {
    ProcSummary {
        pid,
        comm: "job".to_string(),
        state: "S".to_string(),
        parent_pid: 1,
        process_group_id: group,
        session_id: 10,
    }
}

#[test]
fn lingering_processes_are_those_of_the_interrupted_group_outside_the_shell() {
    let shell_pid = 100;
    let shell_group = 100;
    let attached = vec![process(100, 100), process(200, 300), process(201, 300)];
    assert!(has_lingering_tty_processes_for_interrupted_group(&attached, shell_pid, shell_group, 300, &vec![]));
    assert!(!has_lingering_tty_processes_for_interrupted_group(&attached, shell_pid, shell_group, 300, &vec![200, 201]));
    assert!(!has_lingering_tty_processes_for_interrupted_group(&attached, shell_pid, shell_group, 400, &vec![]));
    assert!(!has_lingering_tty_processes_for_interrupted_group(&attached, shell_pid, shell_group, 100, &vec![]));
}

#[test]
fn interrupted_group_is_the_foreground_group_unless_it_is_the_shells() {
    assert_eq!(interrupted_group(Some(7), 7), None);
    assert_eq!(interrupted_group(Some(8), 7), Some(8));
    assert_eq!(interrupted_group(None, 7), None);
}

#[test]
fn lingering_processes_are_listed_in_order() {
    let attached = vec![process(100, 100), process(200, 300), process(150, 300), process(201, 300)];
    assert_eq!(lingering_tty_processes_for_interrupted_group(&attached, 100, 100, 300, &vec![150]), vec![200, 201]);
    assert_eq!(lingering_tty_processes_for_interrupted_group(&attached, 100, 100, 999, &vec![]), Vec::<u32>::new());
}
