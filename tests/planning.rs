use std::cmp::Ordering;

use partsinstall::compare_numeric_extension;
use partsinstall::order::{numeric_order, order_parts, sort_by_numeric_extension};
use partsinstall::steps::{
    destination_step, extract_args, extract_status, find_by_keywords, find_final_name,
    glob_pattern, output_name, output_step, parse_app_name, progress_line, progress_line_with,
    CombinePlan, CreateOutcome, DestinationStep, ExtractStatus, OutputStep, PlanError,
};
use partsinstall::PathKind;

fn strings(items: &[&str]) -> Vec<String> {
    items.iter().map(|s| s.to_string()).collect()
}

fn parts(name: &str, numbers: &[u32]) -> Vec<String> {
    numbers.iter().map(|n| format!("{name}.{n:03}")).collect()
}

#[test]
fn comparator_orders_by_number() {
    assert_eq!(compare_numeric_extension("x.7z.001", "x.7z.011"), Some(Ordering::Less));
    assert_eq!(compare_numeric_extension("x.7z.011", "x.7z.002"), Some(Ordering::Greater));
    assert_eq!(compare_numeric_extension("x.7z.02", "y.zip.002"), Some(Ordering::Equal));
    assert_eq!(compare_numeric_extension("x.7z", "x.7z.002"), None);
    assert_eq!(compare_numeric_extension("x.7z.001", "x.txt"), None);
}

#[test]
fn sorts_numerically_not_as_text() {
    let files = strings(&["x.7z.001", "x.7z.011", "x.7z.002"]);
    assert_eq!(
        sort_by_numeric_extension(&files),
        Some(strings(&["x.7z.001", "x.7z.002", "x.7z.011"]))
    );
}

#[test]
fn numeric_order_is_stable() {
    assert_eq!(numeric_order(&vec![1, 11, 2]), vec![0, 2, 1]);
    assert_eq!(numeric_order(&vec![3, 1, 3, 1]), vec![1, 3, 0, 2]);
    assert_eq!(numeric_order(&vec![]), Vec::<usize>::new());
}

#[test]
fn sort_without_part_number_fails() {
    assert_eq!(sort_by_numeric_extension(&strings(&["x.7z.001", "x.7z"])), None);
}

#[test]
fn few_parts_keep_listing_order() {
    let listed = strings(&["x.7z.002", "x.7z.001"]);
    assert_eq!(order_parts(listed.clone()), Some(listed));
    let ten = parts("x.7z", &[10, 1, 2, 3, 4, 5, 6, 7, 8, 9]);
    assert_eq!(order_parts(ten.clone()), Some(ten));
}

#[test]
fn many_parts_are_sorted() {
    let listed = parts("x.7z", &[1, 10, 11, 2, 3, 4, 5, 6, 7, 8, 9]);
    let sorted = parts("x.7z", &[1, 2, 3, 4, 5, 6, 7, 8, 9, 10, 11]);
    assert_eq!(order_parts(listed), Some(sorted));
}

#[test]
fn many_parts_need_numbers() {
    let mut listed = parts("x.7z", &[1, 2, 3, 4, 5, 6, 7, 8, 9, 10]);
    listed.push("x.7z.txt".to_string());
    assert_eq!(order_parts(listed), None);
}

#[test]
fn single_candidate_without_prompt() {
    let plan = find_final_name("App", strings(&["App.7z"]), true);
    match plan {
        Ok(CombinePlan::Single { path, confirm }) => {
            assert_eq!(path, "App.7z");
            assert!(!confirm);
        }
        other => panic!("unexpected plan {other:?}"),
    }
}

#[test]
fn single_candidate_asks_when_interactive() {
    match find_final_name("App", strings(&["dir/App.7z"]), false) {
        Ok(CombinePlan::Single { path, confirm }) => {
            assert_eq!(path, "dir/App.7z");
            assert!(confirm);
        }
        other => panic!("unexpected plan {other:?}"),
    }
}

#[test]
fn two_parts_combine_to_archive_name() {
    let plan = find_final_name("App", strings(&["App.7z.001", "App.7z.002"]), true);
    match plan {
        Ok(CombinePlan::Combine { parts, output }) => {
            assert_eq!(output, "App.7z");
            assert_eq!(parts, strings(&["App.7z.001", "App.7z.002"]));
        }
        other => panic!("unexpected plan {other:?}"),
    }
}

#[test]
fn many_parts_combine_in_number_order() {
    let listed = parts("App.zip", &[1, 10, 11, 12, 2, 3, 4, 5, 6, 7, 8, 9]);
    match find_final_name("App", listed, false) {
        Ok(CombinePlan::Combine { parts: got, output }) => {
            assert_eq!(output, "App.zip");
            assert_eq!(got, parts("App.zip", &[1, 2, 3, 4, 5, 6, 7, 8, 9, 10, 11, 12]));
        }
        other => panic!("unexpected plan {other:?}"),
    }
}

#[test]
fn plan_errors() {
    assert_eq!(find_final_name("App", Vec::new(), true).unwrap_err(), PlanError::NoCandidates);
    assert_eq!(
        find_final_name("App", strings(&["..", "App.7z.002"]), true).unwrap_err(),
        PlanError::NoFileName
    );
    assert_eq!(
        find_final_name("App", strings(&["App.001", "App.002"]), true).unwrap_err(),
        PlanError::NoArchiveType
    );
    let mut listed = parts("App.7z", &[1, 2, 3, 4, 5, 6, 7, 8, 9, 10]);
    listed.push("App.7z.part".to_string());
    assert_eq!(find_final_name("App", listed, true).unwrap_err(), PlanError::MissingPartNumber);
}

#[test]
fn output_name_skips_numbers() {
    assert_eq!(output_name("App", "App.001.7z.002"), Some("App.7z".to_string()));
    assert_eq!(output_name("My App", "My App.rar.001"), Some("My App.rar".to_string()));
    assert_eq!(output_name("App", "App"), None);
}

#[test]
fn existing_output_is_reused_not_written() {
    assert_eq!(output_step(CreateOutcome::Created, true), OutputStep::Write);
    assert_eq!(output_step(CreateOutcome::AlreadyExists, true), OutputStep::Reuse);
    assert_eq!(output_step(CreateOutcome::AlreadyExists, false), OutputStep::ConfirmReuse);
    assert_eq!(output_step(CreateOutcome::Failed, true), OutputStep::Fatal);
}

#[test]
fn destination_decisions() {
    assert_eq!(destination_step(CreateOutcome::Created, None, false), DestinationStep::Proceed);
    assert_eq!(destination_step(CreateOutcome::Failed, Some(0), true), DestinationStep::Fatal);
    assert_eq!(destination_step(CreateOutcome::AlreadyExists, None, true), DestinationStep::Unreadable);
    assert_eq!(destination_step(CreateOutcome::AlreadyExists, Some(0), false), DestinationStep::Proceed);
    assert_eq!(destination_step(CreateOutcome::AlreadyExists, Some(3), true), DestinationStep::Proceed);
    assert_eq!(
        destination_step(CreateOutcome::AlreadyExists, Some(3), false),
        DestinationStep::ConfirmNonEmpty
    );
}

#[test]
fn finds_entry_by_keywords() {
    let exes = strings(&["d/setup.exe", "d/Cool Tool.exe", "d/cool.exe"]);
    assert_eq!(find_by_keywords("Cool Tool", &exes), Some(1));
    assert_eq!(find_by_keywords("cool", &exes), Some(2));
    assert_eq!(find_by_keywords("Other", &exes), None);
}

#[test]
fn extraction_command_line() {
    assert_eq!(extract_args("out/App", "App.7z", true), strings(&["x", "-oout/App", "-y", "App.7z"]));
    assert_eq!(extract_args("out/App", "App.7z", false), strings(&["x", "-oout/App", "App.7z"]));
}

#[test]
fn extraction_exit_codes() {
    assert_eq!(extract_status(0), ExtractStatus::Success);
    assert_eq!(extract_status(1), ExtractStatus::Success);
    assert_eq!(extract_status(2), ExtractStatus::FatalError);
    assert_eq!(extract_status(7), ExtractStatus::CommandLineError);
    assert_eq!(extract_status(8), ExtractStatus::OutOfMemory);
    assert_eq!(extract_status(255), ExtractStatus::UserStopped);
    assert_eq!(extract_status(3), ExtractStatus::Unknown);
    assert_eq!(extract_status(-1), ExtractStatus::Unknown);
}

#[test]
fn candidate_patterns() {
    assert_eq!(glob_pattern("App", false), "App*");
    assert_eq!(glob_pattern("Test.App", true), "Test.App/Test.App*");
}

#[test]
fn progress_lines() {
    assert_eq!(progress_line_with(2, 12, "App.7z.003", Some("1.50 kB")), "3/12: combining \"App.7z.003\" (1.50 kB)");
    assert_eq!(progress_line(0, 2, "App.7z.001", None), "1/2: combining \"App.7z.001\"");
    assert_eq!(progress_line(0, 2, "App.7z.001", Some(1500)), "1/2: combining \"App.7z.001\" (1.50 kB)");
    assert_eq!(progress_line(1, 2, "App.7z.002", Some(1000)), "2/2: combining \"App.7z.002\" (1 kB)");
}

#[test]
fn parse_app_name_matches_find_app_name() {
    assert_eq!(parse_app_name("App.7z.001", PathKind::File), Some("App".to_string()));
    assert_eq!(parse_app_name("App.7z.001", PathKind::Missing), Some("App.7z.001".to_string()));
}
