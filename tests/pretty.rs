use hedgehog::journal;
use hedgehog::pretty::{
    render, render_and_discards, render_and_shrinks, render_discards, render_failed, render_gave_up, render_ok,
    render_tests,
};
use hedgehog::pretty::{render_tree_lines, shift};
use hedgehog::property::{Report, Status};
use hedgehog::shrink::Towards;

#[test]
fn counts_are_singular_or_plural() {
    assert_eq!(render_tests(1), "1 test");
    assert_eq!(render_tests(0), "0 tests");
    assert_eq!(render_tests(12), "12 tests");
    assert_eq!(render_discards(1), "1 discard");
    assert_eq!(render_discards(100), "100 discards");
    assert_eq!(render_and_discards(0), "");
    assert_eq!(render_and_discards(1), " and 1 discard");
    assert_eq!(render_and_discards(3), " and 3 discards");
    assert_eq!(render_and_shrinks(0), "");
    assert_eq!(render_and_shrinks(1), " and 1 shrink");
    assert_eq!(render_and_shrinks(7), " and 7 shrinks");
}

#[test]
fn reports_render_as_text() {
    assert_eq!(render_ok(100), "+++ OK, passed 100 tests.");
    assert_eq!(render_gave_up(0, 100), "*** Gave up after 100 discards, passed 0 tests.");
    let j = journal::from_list(vec!["10".to_string(), "!".to_string()]);
    assert_eq!(render_failed(4, 0, 2, j), "*** Failed! Falsifiable (after 4 tests and 2 shrinks and 0 discards): 10!");
    let r = Report { tests: 1, discards: 1, status: Status::Failed(1, journal::singleton("x".to_string())) };
    assert_eq!(render(r), "*** Failed! Falsifiable (after 1 test and 1 shrink and 1 discard): x");
    let z = Report { tests: 1, discards: 0, status: Status::Failed(0, journal::singleton("y".to_string())) };
    assert_eq!(render(z), "*** Failed! Falsifiable (after 1 test and 0 shrinks and 0 discards): y");
    assert_eq!(render(Report { tests: 50, discards: 0, status: Status::Passed }), "+++ OK, passed 50 tests.");
    assert_eq!(render(Report { tests: 2, discards: 100, status: Status::GaveUp }), "*** Gave up after 100 discards, passed 2 tests.");
}

#[test]
fn trees_render_with_branches() {
    let t = Towards { destination: 0, value: 2 };
    assert_eq!(render_tree_lines(100, &t), vec![" 2", " ├╼ 0", " └╼ 1"]);
    assert_eq!(render_tree_lines(0, &t), vec![" 2", "..."]);
    let deeper = Towards { destination: 0, value: 4 };
    assert_eq!(render_tree_lines(1, &deeper), vec![" 4", " ├╼ 0", " │ ...", " ├╼ 2", " │ ...", " └╼ 3", "   ..."]);
    assert_eq!(shift("a", "b", vec!["1".to_string(), "2".to_string()]), vec!["a1", "b2"]);
}
