use diffy::decorations::{build_decorations, compute_decorations};
use diffy::grouping::{compute_deltas, group_deltas, saturating_add_len};
use diffy::model::{Delta, DeltaKind, InlineSpan, LineBlock};
use diffy::raw::{BlockTag, RawBlock};
use diffy::span::{changed_span, changed_span_utf16, clamp_len};

fn s(v: &str) -> String {
    v.to_string()
}

fn block(tag: BlockTag, text: &str) -> RawBlock {
    RawBlock { tag, text: text.to_string() }
}

fn check_delta(d: &Delta, kind: DeltaKind, pos: u32, src: &[&str], tgt: &[&str]) {
    assert_eq!(d.kind, kind);
    assert_eq!(d.target_position, pos);
    let src: Vec<String> = src.iter().map(|x| x.to_string()).collect();
    let tgt: Vec<String> = tgt.iter().map(|x| x.to_string()).collect();
    assert_eq!(d.source_lines, src);
    assert_eq!(d.target_lines, tgt);
}

#[test]
fn identical_texts_give_no_deltas() {
    assert!(compute_deltas(s("a\nb\nc"), s("a\nb\nc")).is_empty());
}

#[test]
fn identical_texts_give_no_decorations() {
    let d = compute_decorations(s("a\nb\nc"), s("a\nb\nc"));
    assert!(d.line_blocks.is_empty());
    assert!(d.inline_spans.is_empty());
}

#[test]
fn empty_texts_give_nothing() {
    assert!(compute_deltas(s(""), s("")).is_empty());
    let d = compute_decorations(s(""), s(""));
    assert!(d.line_blocks.is_empty());
    assert!(d.inline_spans.is_empty());
}

#[test]
fn one_changed_line_is_a_change() {
    let out = compute_deltas(s("a\nb\nc"), s("a\nx\nc"));
    assert_eq!(out.len(), 1);
    check_delta(&out[0], DeltaKind::Change, 1, &["b"], &["x"]);
}

#[test]
fn one_changed_line_decorations() {
    let d = compute_decorations(s("a\nb\nc"), s("a\nx\nc"));
    assert_eq!(d.line_blocks, vec![LineBlock { kind: DeltaKind::Change, start_line: 1, line_count: 1 }]);
    assert_eq!(d.inline_spans, vec![InlineSpan { line: 1, start_col_utf16: 0, end_col_utf16: 1 }]);
}

#[test]
fn added_line_is_an_insert() {
    let out = compute_deltas(s("a\nc"), s("a\nb\nc"));
    assert_eq!(out.len(), 1);
    check_delta(&out[0], DeltaKind::Insert, 1, &[], &["b"]);
    let d = compute_decorations(s("a\nc"), s("a\nb\nc"));
    assert_eq!(d.line_blocks, vec![LineBlock { kind: DeltaKind::Insert, start_line: 1, line_count: 1 }]);
    assert!(d.inline_spans.is_empty());
}

#[test]
fn removed_line_is_a_delete() {
    let out = compute_deltas(s("a\nb\nc"), s("a\nc"));
    assert_eq!(out.len(), 1);
    check_delta(&out[0], DeltaKind::Delete, 1, &["b"], &[]);
    let d = compute_decorations(s("a\nb\nc"), s("a\nc"));
    assert_eq!(d.line_blocks, vec![LineBlock { kind: DeltaKind::Delete, start_line: 1, line_count: 1 }]);
}

#[test]
fn trailing_removal_is_flushed() {
    let out = compute_deltas(s("a\nb\nc"), s("a"));
    assert_eq!(out.len(), 1);
    check_delta(&out[0], DeltaKind::Delete, 1, &["b", "c"], &[]);
    let d = compute_decorations(s("a\nb\nc"), s("a"));
    assert_eq!(d.line_blocks, vec![LineBlock { kind: DeltaKind::Delete, start_line: 1, line_count: 2 }]);
}

#[test]
fn accented_letter_span() {
    assert_eq!(changed_span_utf16("héllo", "hbllo"), Some((1, 2)));
}

#[test]
fn surrogate_pair_span() {
    assert_eq!(changed_span_utf16("😀x", "😀y"), Some((2, 3)));
}

#[test]
fn surrogate_pair_counts_two_units_in_the_end() {
    assert_eq!(changed_span_utf16("a", "b😀"), Some((0, 3)));
}

#[test]
fn identical_lines_have_no_span() {
    assert_eq!(changed_span_utf16("same", "same"), None);
    assert_eq!(changed_span_utf16("", ""), None);
}

#[test]
fn cut_out_middle_has_no_span() {
    assert_eq!(changed_span_utf16("abc", "ac"), None);
    assert_eq!(changed_span(&[1, 2, 3], &[1, 3]), None);
}

#[test]
fn inserted_middle_is_the_span() {
    assert_eq!(changed_span_utf16("ac", "abc"), Some((1, 2)));
}

#[test]
fn suffix_never_overlaps_prefix() {
    assert_eq!(changed_span_utf16("ab", "abab"), Some((2, 4)));
    assert_eq!(changed_span(&[7, 7], &[7, 7, 7]), Some((2, 3)));
}

#[test]
fn span_is_minimal() {
    assert_eq!(changed_span(&[1, 2, 3, 4], &[1, 8, 9, 4]), Some((1, 3)));
    assert_eq!(changed_span(&[], &[5]), Some((0, 1)));
    assert_eq!(changed_span(&[5], &[]), None);
}

#[test]
fn change_spans_stop_at_shorter_side() {
    let d = compute_decorations(s("k\nab\ncd\nz"), s("k\naX\nz"));
    assert_eq!(d.line_blocks, vec![LineBlock { kind: DeltaKind::Change, start_line: 1, line_count: 1 }]);
    assert_eq!(d.inline_spans, vec![InlineSpan { line: 1, start_col_utf16: 1, end_col_utf16: 2 }]);
}

#[test]
fn change_spans_skip_equal_pairs() {
    let blocks = vec![
        block(BlockTag::Same, "top"),
        block(BlockTag::Removed, "one\ntwo\nthree"),
        block(BlockTag::Added, "one!\ntwo\nthree?"),
    ];
    let d = build_decorations(&blocks);
    assert_eq!(d.line_blocks, vec![LineBlock { kind: DeltaKind::Change, start_line: 1, line_count: 3 }]);
    assert_eq!(
        d.inline_spans,
        vec![
            InlineSpan { line: 1, start_col_utf16: 3, end_col_utf16: 4 },
            InlineSpan { line: 3, start_col_utf16: 5, end_col_utf16: 6 },
        ]
    );
}

#[test]
fn several_operations_in_order() {
    let prev = s("a\nb\nc\nd\ne\nf");
    let cur = s("a\nB\nc\ne\nf\ng\nh");
    let out = compute_deltas(prev.clone(), cur.clone());
    assert_eq!(out.len(), 3);
    check_delta(&out[0], DeltaKind::Change, 1, &["b"], &["B"]);
    check_delta(&out[1], DeltaKind::Delete, 3, &["d"], &[]);
    check_delta(&out[2], DeltaKind::Insert, 5, &[], &["g", "h"]);
    let d = compute_decorations(prev, cur);
    assert_eq!(
        d.line_blocks,
        vec![
            LineBlock { kind: DeltaKind::Change, start_line: 1, line_count: 1 },
            LineBlock { kind: DeltaKind::Delete, start_line: 3, line_count: 1 },
            LineBlock { kind: DeltaKind::Insert, start_line: 5, line_count: 2 },
        ]
    );
    assert_eq!(d.inline_spans, vec![InlineSpan { line: 1, start_col_utf16: 0, end_col_utf16: 1 }]);
}

#[test]
fn deltas_and_line_blocks_agree() {
    let prev = s("1\n2\n3\n4\n5\n6\n7");
    let cur = s("0\n1\n3\n4x\n5\n7\n8");
    let out = compute_deltas(prev.clone(), cur.clone());
    let d = compute_decorations(prev, cur);
    assert_eq!(out.len(), d.line_blocks.len());
    for (delta, lb) in out.iter().zip(d.line_blocks.iter()) {
        assert_eq!(delta.kind, lb.kind);
        assert_eq!(delta.target_position, lb.start_line);
        let n = if delta.kind == DeltaKind::Delete { delta.source_lines.len() } else { delta.target_lines.len() };
        assert_eq!(lb.line_count as usize, n);
    }
}

#[test]
fn positions_never_decrease() {
    let prev = s("a\nb\nc\nd\ne\nf\ng\nh");
    let cur = s("x\na\nc\ndd\ne\ny\nz\nh\nq");
    let out = compute_deltas(prev.clone(), cur.clone());
    assert!(!out.is_empty());
    for w in out.windows(2) {
        assert!(w[0].target_position <= w[1].target_position);
    }
    let d = compute_decorations(prev, cur);
    for w in d.line_blocks.windows(2) {
        assert!(w[0].start_line <= w[1].start_line);
    }
    for w in d.inline_spans.windows(2) {
        assert!(w[0].line <= w[1].line);
    }
}

fn check_rebuild(prev: String, cur: String) {
    let old: Vec<String> = prev.split('\n').map(|l| l.to_string()).collect();
    let new: Vec<String> = cur.split('\n').map(|l| l.to_string()).collect();
    let mut rebuilt: Vec<String> = Vec::new();
    let mut at = 0usize;
    for d in compute_deltas(prev, cur) {
        while rebuilt.len() < d.target_position as usize {
            rebuilt.push(old[at].clone());
            at += 1;
        }
        assert_eq!(old[at..at + d.source_lines.len()].to_vec(), d.source_lines);
        at += d.source_lines.len();
        rebuilt.extend(d.target_lines.iter().cloned());
    }
    rebuilt.extend(old[at..].iter().cloned());
    assert_eq!(rebuilt, new);
}

#[test]
fn applying_deltas_rebuilds_current() {
    check_rebuild(s("a\nb\nc\nd\ne\nf"), s("a\nB\nc\ne\nf\ng\nh"));
}

#[test]
fn applying_deltas_rebuilds_current_with_blank_lines() {
    let prev = s("a\n\nb\nc");
    let cur = s("a\n\nB\nc\n\nd");
    let out = compute_deltas(prev.clone(), cur.clone());
    assert_eq!(out.len(), 2);
    check_delta(&out[0], DeltaKind::Change, 2, &["b"], &["B"]);
    check_delta(&out[1], DeltaKind::Insert, 4, &[], &["", "d"]);
    check_rebuild(prev, cur);
}

#[test]
fn empty_blocks_count_no_lines() {
    let blocks = vec![
        block(BlockTag::Same, ""),
        block(BlockTag::Added, ""),
        block(BlockTag::Same, "a"),
        block(BlockTag::Removed, ""),
    ];
    let out = group_deltas(&blocks);
    assert_eq!(out.len(), 2);
    check_delta(&out[0], DeltaKind::Insert, 0, &[], &[]);
    check_delta(&out[1], DeltaKind::Delete, 1, &[], &[]);
}

#[test]
fn block_lines_split_at_every_newline() {
    let blocks = vec![block(BlockTag::Removed, "p\r\nq"), block(BlockTag::Added, "r\ns\n")];
    let out = group_deltas(&blocks);
    assert_eq!(out.len(), 1);
    check_delta(&out[0], DeltaKind::Change, 0, &["p\r", "q"], &["r", "s", ""]);
}

#[test]
fn blank_line_after_same_block_is_counted() {
    let out = compute_deltas(s("a\n\nb"), s("a\n\nc"));
    assert_eq!(out.len(), 1);
    check_delta(&out[0], DeltaKind::Change, 2, &["b"], &["c"]);
    let d = compute_decorations(s("a\n\nb"), s("a\n\nc"));
    assert_eq!(d.line_blocks, vec![LineBlock { kind: DeltaKind::Change, start_line: 2, line_count: 1 }]);
    assert_eq!(d.inline_spans, vec![InlineSpan { line: 2, start_col_utf16: 0, end_col_utf16: 1 }]);
}

#[test]
fn trailing_blank_line_stays_in_block() {
    let blocks = vec![block(BlockTag::Same, "a"), block(BlockTag::Added, "x\n")];
    let out = group_deltas(&blocks);
    assert_eq!(out.len(), 1);
    check_delta(&out[0], DeltaKind::Insert, 1, &[], &["x", ""]);
}

#[test]
fn removal_followed_by_same_is_a_delete() {
    let blocks = vec![
        block(BlockTag::Removed, "gone"),
        block(BlockTag::Same, "kept\nkept"),
        block(BlockTag::Added, "new"),
    ];
    let out = group_deltas(&blocks);
    assert_eq!(out.len(), 2);
    check_delta(&out[0], DeltaKind::Delete, 0, &["gone"], &[]);
    check_delta(&out[1], DeltaKind::Insert, 2, &[], &["new"]);
}

#[test]
fn cursor_saturates() {
    assert_eq!(saturating_add_len(u32::MAX - 1, 5), u32::MAX);
    assert_eq!(saturating_add_len(3, 4), 7);
    assert_eq!(clamp_len(12), 12);
    assert_eq!(clamp_len(usize::MAX), u32::MAX);
}
