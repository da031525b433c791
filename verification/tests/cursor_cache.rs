use std::rc::Rc;

use starcomp::block::Block;
use starcomp::cache::BlockCache;
use starcomp::cursor::LineCursor;
use starcomp::line::{SourceLine, number_lines};

fn lines_of(texts: &[&str]) -> Vec<SourceLine> {
    number_lines(texts.iter().map(|t| String::from(*t)).collect())
}

#[test]
fn advance_moves_forward_and_stops_at_end() {
    let lines = Rc::new(lines_of(&["a", "b", "c"]));
    let mut cur = LineCursor::new(lines, 0, true);
    assert!(cur.advance(false));
    assert_eq!(cur.index, 1);
    assert!(cur.advance(false));
    assert_eq!(cur.index, 2);
    for _ in 0..5 {
        assert!(!cur.advance(false));
        assert_eq!(cur.index, 2);
    }
}

#[test]
fn retreat_moves_backward_and_stops_at_start() {
    let lines = Rc::new(lines_of(&["a", "b", "c"]));
    let mut cur = LineCursor::new(lines, 2, true);
    assert!(cur.retreat(false));
    assert_eq!(cur.index, 1);
    assert!(cur.retreat(false));
    assert_eq!(cur.index, 0);
    for _ in 0..5 {
        assert!(!cur.retreat(false));
        assert_eq!(cur.index, 0);
    }
}

#[test]
fn moves_refuse_an_unchanged_neighbour_text() {
    let lines = Rc::new(lines_of(&["same", "same", "other"]));
    let mut cur = LineCursor::new(Rc::clone(&lines), 0, true);
    assert!(!cur.advance(false));
    assert_eq!(cur.index, 0);

    let mut cur = LineCursor::new(lines, 1, true);
    assert!(!cur.retreat(false));
    assert_eq!(cur.index, 1);
    assert!(cur.advance(false));
    assert_eq!(cur.index, 2);
}

#[test]
fn switch_focus_clears_the_flag_regardless_of_outcome() {
    let lines = Rc::new(lines_of(&["a", "b"]));
    let mut cur = LineCursor::new(Rc::clone(&lines), 0, true);
    assert!(cur.advance(true));
    assert!(!cur.focused);

    let mut cur = LineCursor::new(lines, 1, true);
    assert!(!cur.advance(true));
    assert!(!cur.focused);
    assert_eq!(cur.index, 1);
}

#[test]
fn current_returns_the_pointed_line() {
    let lines = Rc::new(lines_of(&["a", "b"]));
    let cur = LineCursor::new(lines, 1, true);
    assert_eq!(cur.current().text, "b");
    assert_eq!(cur.current().number, 1);
}

#[test]
fn cache_stores_and_looks_up_trees() {
    let mut cache = BlockCache::new();
    assert_eq!(cache.len(), 0);
    assert!(!cache.contains(42));
    assert!(cache.lookup(42).is_none());

    let tree = Block::build(&lines_of(&["{", "a", "}"])).unwrap();
    cache.store(42, tree);
    assert_eq!(cache.len(), 1);
    assert!(cache.contains(42));
    let got = cache.lookup(42).unwrap();
    assert_eq!(got.children.len(), 1);
    assert_eq!(got.children[0].lines[0].text, "a");
    assert!(!cache.contains(7));

    let other = Block::build(&lines_of(&["x"])).unwrap();
    cache.store(7, other);
    assert_eq!(cache.len(), 2);
    assert_eq!(cache.lookup(7).unwrap().lines.len(), 1);
}

#[test]
fn numbering_lines_tags_positions() {
    let lines = lines_of(&["x", "y"]);
    assert_eq!(lines.len(), 2);
    assert_eq!(lines[0].text, "x");
    assert_eq!(lines[0].number, 0);
    assert_eq!(lines[1].text, "y");
    assert_eq!(lines[1].number, 1);
}
