use commit_filter::engine::{AsyncCommitFilterer, BatchOutcome, FilterStatus, limit_str};
use commit_filter::mask::FilterBy;
use commit_filter::matcher::CommitInfo;
use commit_filter::revlog::Revlog;

fn commit(id: &str, author: &str, message: &str) -> CommitInfo {
    CommitInfo { id: id.to_owned(), author: author.to_owned(), message: message.to_owned() }
}

fn compile(raw: &str) -> Vec<Vec<(String, FilterBy)>> {
    let pre = Revlog::pre_process_string(raw.to_string());
    Revlog::get_what_to_filter_by(pre.trim())
}

#[test]
fn test_filter_case_folding() {
    let batch = vec![
        commit("0a1b", "Alice", "Fix the parser"),
        commit("2c3d", "Bob", "add tests"),
    ];
    let q = compile("fix");
    let kept = AsyncCommitFilterer::filter(batch, &q);
    assert_eq!(kept.len(), 1);
    assert_eq!(kept[0].author, "Alice");
}

#[test]
fn test_filter_case_sensitive_flag() {
    let batch = vec![commit("0a1b", "Alice", "Fix the parser")];
    assert_eq!(AsyncCommitFilterer::filter(batch.clone(), &compile(":c fix")).len(), 0);
    assert_eq!(AsyncCommitFilterer::filter(batch, &compile(":c Fix")).len(), 1);
}

#[test]
fn test_filter_negation_flag() {
    let batch = vec![
        commit("0a1b", "Alice", "Fix the parser"),
        commit("2c3d", "Bob", "add tests"),
    ];
    let kept = AsyncCommitFilterer::filter(batch, &compile(":! fix"));
    assert_eq!(kept.len(), 1);
    assert_eq!(kept[0].author, "Bob");
}

#[test]
fn test_filter_field_selection() {
    let batch = vec![
        commit("abc123", "Alice", "message one"),
        commit("def456", "abc", "message two"),
    ];
    let kept = AsyncCommitFilterer::filter(batch.clone(), &compile(":s abc"));
    assert_eq!(kept.len(), 1);
    assert_eq!(kept[0].id, "abc123");
    let kept = AsyncCommitFilterer::filter(batch, &compile(":a abc"));
    assert_eq!(kept.len(), 1);
    assert_eq!(kept[0].id, "def456");
}

#[test]
fn test_filter_and_or() {
    let batch = vec![
        commit("1", "Alice", "fix parser"),
        commit("2", "Alice", "add docs"),
        commit("3", "Bob", "fix docs"),
    ];
    let kept = AsyncCommitFilterer::filter(batch.clone(), &compile("alice && fix"));
    assert_eq!(kept.len(), 1);
    assert_eq!(kept[0].id, "1");
    let kept = AsyncCommitFilterer::filter(batch, &compile("parser || docs"));
    assert_eq!(kept.len(), 3);
}

#[test]
fn test_stop_filter_idempotent() {
    let mut e = AsyncCommitFilterer::new();
    e.stop_filter();
    assert_eq!(e.fetch(), FilterStatus::Finished);
    assert_eq!(e.count(), 0);
    assert!(!e.is_pending());
    e.stop_filter();
    assert_eq!(e.fetch(), FilterStatus::Finished);
    assert_eq!(e.count(), 0);
    assert!(!e.is_pending());
}

#[test]
fn test_generation_supersedes() {
    let mut e = AsyncCommitFilterer::new();
    e.start_filter(compile("alpha"));
    let gen1 = e.current_generation();
    let out = e.process_batch(gen1, vec![commit("1", "x", "alpha one")], true);
    assert_eq!(out, BatchOutcome::Continue);
    assert_eq!(e.count(), 1);

    e.start_filter(compile("beta"));
    assert_eq!(e.count(), 0);
    let gen2 = e.current_generation();

    // A batch still in flight from the superseded generation is refused.
    let out = e.process_batch(gen1, vec![commit("2", "x", "alpha two")], true);
    assert_eq!(out, BatchOutcome::Superseded);
    assert_eq!(e.count(), 0);

    let out = e.process_batch(
        gen2,
        vec![commit("3", "x", "beta one"), commit("4", "x", "alpha three")],
        true,
    );
    assert_eq!(out, BatchOutcome::Continue);
    let page = e.get_filter_items(0, 10, 1000);
    assert_eq!(page.len(), 1);
    assert_eq!(page[0].id, "3");
}

#[test]
fn test_batch_after_stop_refused() {
    let mut e = AsyncCommitFilterer::new();
    e.start_filter(compile("alpha"));
    let gen = e.current_generation();
    e.stop_filter();
    let out = e.process_batch(gen, vec![commit("1", "x", "alpha")], true);
    assert_eq!(out, BatchOutcome::Superseded);
    assert_eq!(e.count(), 0);
}

#[test]
fn test_empty_batch_finishes_when_log_done() {
    let mut e = AsyncCommitFilterer::new();
    e.start_filter(compile("alpha"));
    let gen = e.current_generation();
    assert_eq!(e.fetch(), FilterStatus::Filtering);
    assert!(e.is_pending());
    let out = e.process_batch(gen, Vec::new(), false);
    assert_eq!(out, BatchOutcome::Finished);
    assert_eq!(e.fetch(), FilterStatus::Finished);
    assert!(!e.is_pending());
}

#[test]
fn test_empty_batch_continues_while_log_loads() {
    let mut e = AsyncCommitFilterer::new();
    e.start_filter(compile("alpha"));
    let gen = e.current_generation();
    let out = e.process_batch(gen, Vec::new(), true);
    assert_eq!(out, BatchOutcome::Continue);
    assert_eq!(e.fetch(), FilterStatus::Filtering);
}

fn engine_with_five() -> AsyncCommitFilterer {
    let mut e = AsyncCommitFilterer::new();
    e.start_filter(compile("commit"));
    let gen = e.current_generation();
    let batch = vec![
        commit("1", "a", "commit one"),
        commit("2", "b", "commit two"),
        commit("3", "c", "commit three"),
        commit("4", "d", "commit four"),
        commit("5", "e", "commit five"),
    ];
    let out = e.process_batch(gen, batch, true);
    assert_eq!(out, BatchOutcome::Continue);
    assert_eq!(e.count(), 5);
    e
}

#[test]
fn test_fetch_page_clamp() {
    let e = engine_with_five();
    let page = e.get_filter_items(0, 3, 1000);
    assert_eq!(page.len(), 3);
    assert_eq!(page[0].id, "1");
    assert_eq!(page[2].id, "3");

    let page = e.get_filter_items(4, 10, 1000);
    assert_eq!(page.len(), 1);
    assert_eq!(page[0].id, "5");

    let page = e.get_filter_items(10, 5, 1000);
    assert_eq!(page.len(), 0);

    let page = e.get_filter_items(5, 0, 1000);
    assert_eq!(page.len(), 0);

    let page = e.get_filter_items(0, usize::MAX, 1000);
    assert_eq!(page.len(), 5);
}

#[test]
fn test_fetch_page_truncates_messages() {
    let e = engine_with_five();
    let page = e.get_filter_items(0, 1, 6);
    assert_eq!(page.len(), 1);
    assert_eq!(page[0].message, "commit");
    // The source of truth keeps the full message.
    let full = e.get_filter_items(0, 1, 1000);
    assert_eq!(full[0].message, "commit one");
}

#[test]
fn test_limit_str() {
    assert_eq!(limit_str("hello", 3), "hel");
    assert_eq!(limit_str("hello", 10), "hello");
    assert_eq!(limit_str("", 3), "");
}

#[test]
fn test_stop_destroys_matches() {
    let mut e = engine_with_five();
    e.stop_filter();
    assert_eq!(e.fetch(), FilterStatus::Finished);
    assert_eq!(e.count(), 0);
    assert_eq!(e.get_filter_items(0, 10, 1000).len(), 0);
    e.stop_filter();
    assert_eq!(e.fetch(), FilterStatus::Finished);
    assert_eq!(e.count(), 0);
    assert_eq!(e.get_filter_items(0, 10, 1000).len(), 0);
}

#[test]
fn test_clear_resets_counter_with_accumulator() {
    let mut e = engine_with_five();
    e.clear();
    assert_eq!(e.count(), 0);
    assert_eq!(e.get_filter_items(0, 10, 1000).len(), 0);
}

#[test]
fn test_revlog_filter_lifecycle() {
    let mut rv = Revlog::new();
    assert!(rv.filter("fix"));
    assert!(rv.is_filtering);
    assert!(rv.async_filter.is_pending());

    // The same string again changes nothing.
    assert!(!rv.filter("fix"));

    let gen = rv.async_filter.current_generation();
    let out = rv.async_filter.process_batch(
        gen,
        vec![commit("1", "a", "fix parser"), commit("2", "b", "add docs")],
        true,
    );
    assert_eq!(out, BatchOutcome::Continue);
    assert_eq!(rv.async_filter.count(), 1);

    // The empty query stops filtering, rests the engine, and destroys the
    // accumulated matches.
    assert!(rv.filter(""));
    assert!(!rv.is_filtering);
    assert_eq!(rv.async_filter.fetch(), FilterStatus::Finished);
    assert_eq!(rv.async_filter.count(), 0);
    assert_eq!(rv.async_filter.get_filter_items(0, 10, 1000).len(), 0);
}

#[test]
fn test_revlog_filter_compiles_with_brackets() {
    let mut rv = Revlog::new();
    assert!(rv.filter("x&&(a||b)"));
    assert_eq!(rv.async_filter.filter_strings, compile("x&&a||x&&b"));
}
