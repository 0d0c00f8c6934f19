use squishy::squish::{frame_block, squish, FileOutcome, OutcomeKind};
use squishy::types::SquishResult;

fn outcome(path: &str, kind: OutcomeKind) -> FileOutcome {
    FileOutcome { path: path.to_string(), kind }
}

#[test]
fn frame_block_embeds_content_verbatim() {
    let content = "fn main() {\n    println!(\"hi\");\n}\n";
    let block = frame_block("src/main.rs", content);
    let expected = format!(
        "// ─── src/main.rs ───────────────────────────────────────────\n{content}\n\n\n"
    );
    assert_eq!(block, expected);
    // exactly one header line, the body verbatim, then two blank lines
    let header = "// ─── src/main.rs ───────────────────────────────────────────\n";
    assert_eq!(&block[..header.len()], header);
    assert_eq!(&block[header.len()..header.len() + content.len()], content);
    assert_eq!(&block[header.len() + content.len()..], "\n\n\n");
}

#[test]
fn frame_block_of_empty_content() {
    let block = frame_block("empty.rs", "");
    let expected =
        "// ─── empty.rs ───────────────────────────────────────────\n\n\n\n";
    assert_eq!(block, expected);
}

#[test]
fn partial_failure_keeps_the_other_files() {
    let mut result = SquishResult::new();
    result.scanned("one.rs");
    result.scanned("two.rs");
    result.scanned("three.rs");
    let outcomes = vec![
        outcome("one.rs", OutcomeKind::Success { size: 5 }),
        outcome("two.rs", OutcomeKind::ReadFailure),
        outcome("three.rs", OutcomeKind::Success { size: 7 }),
    ];
    squish(&mut result, &outcomes);
    // the two successes, order preserved
    let squished: Vec<&str> =
        result.squished_list().iter().map(|s| s.path.as_str()).collect();
    assert_eq!(squished, vec!["one.rs", "three.rs"]);
    assert_eq!(result.squished_list()[0].size, 5);
    assert_eq!(result.squished_list()[1].size, 7);
    // the one failure, with its reason
    assert_eq!(result.failed_list().len(), 1);
    assert_eq!(result.failed_list()[0].path, "two.rs");
    assert_eq!(result.failed_list()[0].error, "Read failure");
    // the scanned list is untouched, and every file is accounted
    assert_eq!(result.iter_scanned().len(), 3);
    assert_eq!(result.squished_list().len() + result.failed_list().len(), 3);
    assert_eq!(result.size(), 12);
}

#[test]
fn write_failure_recorded_with_its_reason() {
    let mut result = SquishResult::new();
    result.scanned("a.rs");
    let outcomes = vec![outcome("a.rs", OutcomeKind::WriteFailure)];
    squish(&mut result, &outcomes);
    assert_eq!(result.squished_list().len(), 0);
    assert_eq!(result.failed_list().len(), 1);
    assert_eq!(result.failed_list()[0].error, "Write failure");
}

#[test]
fn read_failures_recorded_before_write_failures() {
    let mut result = SquishResult::new();
    result.scanned("a.rs");
    result.scanned("b.rs");
    result.scanned("c.rs");
    let outcomes = vec![
        outcome("a.rs", OutcomeKind::WriteFailure),
        outcome("b.rs", OutcomeKind::ReadFailure),
        outcome("c.rs", OutcomeKind::Success { size: 1 }),
    ];
    squish(&mut result, &outcomes);
    let failures: Vec<(&str, &str)> = result
        .failed_list()
        .iter()
        .map(|f| (f.path.as_str(), f.error.as_str()))
        .collect();
    assert_eq!(
        failures,
        vec![("b.rs", "Read failure"), ("a.rs", "Write failure")]
    );
    assert_eq!(result.squished_list().len() + result.failed_list().len(), 3);
}

#[test]
fn every_outcome_of_a_batch_is_accounted() {
    let mut result = SquishResult::new();
    let names = ["a.rs", "b.rs", "c.rs", "d.toml", "e.toml"];
    for n in names {
        result.scanned(n);
    }
    let outcomes = vec![
        outcome("a.rs", OutcomeKind::Success { size: 1 }),
        outcome("b.rs", OutcomeKind::ReadFailure),
        outcome("c.rs", OutcomeKind::WriteFailure),
        outcome("d.toml", OutcomeKind::Success { size: 2 }),
        outcome("e.toml", OutcomeKind::ReadFailure),
    ];
    squish(&mut result, &outcomes);
    assert_eq!(
        result.squished_list().len() + result.failed_list().len(),
        outcomes.len()
    );
    assert_eq!(result.iter_scanned().len(), 5);
    assert_eq!(result.size(), 3);
}
