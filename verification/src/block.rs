//! Scope tree construction: partitions a sequence of source lines into a
//! tree of nested `Block` scopes based on brace nesting.
//!
//! The scan is deliberately character-presence based: a line that contains
//! an opening brace anywhere (even inside a string or comment literal)
//! raises the depth once, and a line that contains a closing brace lowers
//! it once. The line raising the depth from 0 to 1 is the *header* of a
//! nested scope and the line lowering it back to 0 is its *footer*; both
//! are excluded from the scope they delimit, and the scope body between
//! them is partitioned recursively by the same rule. Input that ends with
//! the depth still above 0 is rejected with a [`StructuralError`].

use vstd::prelude::*;
use crate::line::{LineModel, SourceLine, line_models};

verus! {

/// Whether the character `c` occurs anywhere in `t`.
pub open spec fn has_char(t: Seq<char>, c: char) -> bool {
    exists|i: int| 0 <= i < t.len() && t[i] == c
}

/// A line opens a scope when it contains an opening brace anywhere.
pub open spec fn opens_scope(t: Seq<char>) -> bool {
    has_char(t, '{')
}

/// A line closes a scope when it contains a closing brace anywhere.
pub open spec fn closes_scope(t: Seq<char>) -> bool {
    has_char(t, '}')
}

/// Mathematical model of a [`Block`]: the lines of its own scope and the
/// models of its nested child scopes, in original order.
pub ghost struct BlockModel {
    pub lines: Seq<LineModel>,
    pub children: Seq<BlockModel>,
}

/// Mathematical model of a [`StructuralError`]: the line range (given by
/// the line numbers of the unclosed header and of the last line seen)
/// that remained open.
pub ghost struct ErrorModel {
    pub open_from: nat,
    pub open_to: nat,
}

/// Brace imbalance: the input ended while a scope opened at line
/// `open_from` was still unclosed at line `open_to`.
#[derive(Clone, Copy, PartialEq, Eq, Structural, Debug)]
pub struct StructuralError {
    pub open_from: usize,
    pub open_to: usize,
}

impl View for StructuralError {
    type V = ErrorModel;

    open spec fn view(&self) -> ErrorModel {
        ErrorModel { open_from: self.open_from as nat, open_to: self.open_to as nat }
    }
}

/// A node of the scope tree: the ordered lines belonging to this scope
/// itself (excluding lines of nested child scopes and the brace lines
/// delimiting them) and the ordered child scopes. Built once, then
/// immutable.
#[derive(Debug)]
pub struct Block {
    pub lines: Vec<SourceLine>,
    pub children: Vec<Block>,
}

/// The model of a block: its line views and, recursively, the models of
/// its children.
pub open spec fn block_model(b: Block) -> BlockModel
    decreases b, 1int,
{
    proof {
        broadcast use vstd::std_specs::vec::group_vec_axioms;

        assert(decreases_to!(b => b.children));
        assert(decreases_to!(b.children => b.children@));
    }
    BlockModel { lines: line_models(b.lines@), children: block_models(b.children@) }
}

/// The models of a sequence of blocks, in order.
pub open spec fn block_models(s: Seq<Block>) -> Seq<BlockModel>
    decreases s, 0int,
{
    if s.len() == 0 {
        Seq::empty()
    } else {
        block_models(s.drop_last()).push(block_model(s.last()))
    }
}

impl View for Block {
    type V = BlockModel;

    open spec fn view(&self) -> BlockModel {
        block_model(*self)
    }
}

/// `block_models` maps each block of a sequence to its model.
pub proof fn lemma_block_models_len(s: Seq<Block>)
    ensures
        block_models(s).len() == s.len(),
    decreases s.len(),
{
    if s.len() > 0 {
        lemma_block_models_len(s.drop_last());
    }
}

/// The model sequence is the element-wise model.
pub proof fn lemma_block_models_index(s: Seq<Block>, i: int)
    requires
        0 <= i < s.len(),
    ensures
        block_models(s).len() == s.len(),
        block_models(s)[i] == block_model(s[i]),
    decreases s.len(),
{
    lemma_block_models_len(s);
    if i < s.len() - 1 {
        lemma_block_models_index(s.drop_last(), i);
    }
}

/// One level of the structural scan over the lines `l`, started at index
/// `i` with the current brace depth, the index `start` of the first line
/// of the currently open group (one past its header), the own lines
/// collected so far and the children built so far.
///
/// Per line, in order: a line containing an opening brace raises the
/// depth, and if the depth just became 1 the line is a header and is
/// skipped entirely. Otherwise, at depth 0 the line is own content, and
/// at positive depth it belongs to the open group; a closing brace then
/// lowers the depth, and on the transition back to 0 the group's lines
/// (header and footer excluded) are scanned recursively into a child.
/// Input ending at positive depth is a structural error carrying the
/// numbers of the unclosed header line and of the last line.
pub open spec fn scope_scan(
    l: Seq<LineModel>,
    i: int,
    depth: nat,
    start: int,
    own: Seq<LineModel>,
    kids: Seq<BlockModel>,
) -> Result<BlockModel, ErrorModel>
    decreases l.len(), l.len() - i,
        when 0 <= i <= l.len() && (depth > 0 ==> 1 <= start <= i)
{
    if i >= l.len() {
        if depth == 0 {
            Ok(BlockModel { lines: own, children: kids })
        } else {
            Err(ErrorModel { open_from: l[start - 1].number, open_to: l[l.len() - 1].number })
        }
    } else {
        let t = l[i].text;
        if depth == 0 {
            if opens_scope(t) {
                scope_scan(l, i + 1, 1, i + 1, own, kids)
            } else {
                scope_scan(l, i + 1, 0, start, own.push(l[i]), kids)
            }
        } else {
            let d: int = depth + if opens_scope(t) { 1int } else { 0int };
            if closes_scope(t) && d == 1 {
                match scope_scan(l.subrange(start, i), 0, 0, 0, Seq::empty(), Seq::empty()) {
                    Ok(c) => scope_scan(l, i + 1, 0, 0, own, kids.push(c)),
                    Err(e) => Err(e),
                }
            } else if closes_scope(t) {
                scope_scan(l, i + 1, (d - 1) as nat, start, own, kids)
            } else {
                scope_scan(l, i + 1, d as nat, start, own, kids)
            }
        }
    }
}

/// The scope tree (or structural error) that the scan assigns to a whole
/// line sequence.
pub open spec fn build_result(l: Seq<LineModel>) -> Result<BlockModel, ErrorModel> {
    scope_scan(l, 0, 0, 0, Seq::empty(), Seq::empty())
}

/// The depth change that one line causes at one scan level: an opening
/// brace raises the depth (a header line's other characters are skipped),
/// a closing brace lowers it, never below zero.
pub open spec fn step_depth(depth: nat, t: Seq<char>) -> nat {
    if opens_scope(t) && depth == 0 {
        1
    } else {
        let d: int = depth + if opens_scope(t) { 1int } else { 0int };
        if closes_scope(t) && d > 0 {
            (d - 1) as nat
        } else {
            d as nat
        }
    }
}

/// The brace depth after the first `i` lines of `l`, at one scan level.
pub open spec fn depth_after(l: Seq<LineModel>, i: int) -> nat
    decreases i,
        when 0 <= i <= l.len()
{
    if i <= 0 {
        0
    } else {
        step_depth(depth_after(l, i - 1), l[i - 1].text)
    }
}

/// The scan's depth argument is the running depth, so the scan succeeds
/// only if the depth comes back to zero at the end of the input.
proof fn lemma_scan_tracks_depth(
    l: Seq<LineModel>,
    i: int,
    depth: nat,
    start: int,
    own: Seq<LineModel>,
    kids: Seq<BlockModel>,
)
    requires
        0 <= i <= l.len(),
        depth > 0 ==> 1 <= start <= i,
        depth == depth_after(l, i),
    ensures
        scope_scan(l, i, depth, start, own, kids) is Ok ==> depth_after(l, l.len() as int) == 0,
        depth_after(l, l.len() as int) != 0 ==> scope_scan(l, i, depth, start, own, kids) is Err,
    decreases l.len() - i,
{
    if i >= l.len() {
    } else {
        let t = l[i].text;
        assert(depth_after(l, i + 1) == step_depth(depth, t));
        if depth == 0 {
            if opens_scope(t) {
                lemma_scan_tracks_depth(l, i + 1, 1, i + 1, own, kids);
            } else {
                lemma_scan_tracks_depth(l, i + 1, 0, start, own.push(l[i]), kids);
            }
        } else {
            let d: int = depth + if opens_scope(t) { 1int } else { 0int };
            if closes_scope(t) && d == 1 {
                match scope_scan(l.subrange(start, i), 0, 0, 0, Seq::empty(), Seq::empty()) {
                    Ok(c) => {
                        lemma_scan_tracks_depth(l, i + 1, 0, 0, own, kids.push(c));
                    },
                    Err(e) => {},
                }
            } else if closes_scope(t) {
                lemma_scan_tracks_depth(l, i + 1, (d - 1) as nat, start, own, kids);
            } else {
                lemma_scan_tracks_depth(l, i + 1, d as nat, start, own, kids);
            }
        }
    }
}

/// Balanced-brace termination: when the input is well formed at this
/// level the running depth is exactly zero after the last line, and a
/// scope tree is produced; input whose depth never returns to zero is
/// always reported as a [`StructuralError`], never built.
pub proof fn lemma_balanced_termination(l: Seq<LineModel>)
    ensures
        build_result(l) is Ok ==> depth_after(l, l.len() as int) == 0,
        depth_after(l, l.len() as int) != 0 ==> build_result(l) is Err,
{
    lemma_scan_tracks_depth(l, 0, 0, 0, Seq::empty(), Seq::empty());
}

/// Whether the line `x` occurs anywhere in the content of the tree `b`:
/// among its own lines or, recursively, inside one of its children.
pub open spec fn in_subtree(x: LineModel, b: BlockModel) -> bool
    decreases b,
{
    b.lines.contains(x) || exists|i: int|
        0 <= i < b.children.len() && in_subtree(x, #[trigger] b.children[i])
}

/// Every line of a successfully built tree comes from the scanned input
/// or from the scan state it was started with.
proof fn lemma_scan_lines_from(
    l: Seq<LineModel>,
    i: int,
    depth: nat,
    start: int,
    own: Seq<LineModel>,
    kids: Seq<BlockModel>,
    x: LineModel,
)
    requires
        0 <= i <= l.len(),
        depth > 0 ==> 1 <= start <= i,
        scope_scan(l, i, depth, start, own, kids) is Ok,
        in_subtree(x, scope_scan(l, i, depth, start, own, kids)->Ok_0),
    ensures
        l.contains(x) || own.contains(x) || exists|k: int|
            0 <= k < kids.len() && in_subtree(x, #[trigger] kids[k]),
    decreases l.len(), l.len() - i,
{
    if i >= l.len() {
    } else {
        let t = l[i].text;
        if depth == 0 {
            if opens_scope(t) {
                lemma_scan_lines_from(l, i + 1, 1, i + 1, own, kids, x);
            } else {
                lemma_scan_lines_from(l, i + 1, 0, start, own.push(l[i]), kids, x);
                if own.push(l[i]).contains(x) && !own.contains(x) {
                    assert(l[i] == x);
                }
            }
        } else {
            let d: int = depth + if opens_scope(t) { 1int } else { 0int };
            if closes_scope(t) && d == 1 {
                let sub = l.subrange(start, i);
                match scope_scan(sub, 0, 0, 0, Seq::empty(), Seq::empty()) {
                    Ok(c) => {
                        lemma_scan_lines_from(l, i + 1, 0, 0, own, kids.push(c), x);
                        if (exists|k: int|
                            0 <= k < kids.push(c).len() && in_subtree(x, #[trigger] kids.push(
                                c,
                            )[k])) && !(exists|k: int|
                            0 <= k < kids.len() && in_subtree(x, #[trigger] kids[k])) {
                            assert(in_subtree(x, c));
                            lemma_scan_lines_from(sub, 0, 0, 0, Seq::empty(), Seq::empty(), x);
                            assert(sub.contains(x));
                            let j = choose|j: int| 0 <= j < sub.len() && sub[j] == x;
                            assert(l[start + j] == x);
                        }
                    },
                    Err(e) => {},
                }
            } else if closes_scope(t) {
                lemma_scan_lines_from(l, i + 1, (d - 1) as nat, start, own, kids, x);
            } else {
                lemma_scan_lines_from(l, i + 1, d as nat, start, own, kids, x);
            }
        }
    }
}

/// Every line in a built scope tree's content is one of the input lines.
pub proof fn lemma_tree_lines_from_input(l: Seq<LineModel>, x: LineModel)
    requires
        build_result(l) is Ok,
        in_subtree(x, build_result(l)->Ok_0),
    ensures
        l.contains(x),
{
    lemma_scan_lines_from(l, 0, 0, 0, Seq::empty(), Seq::empty(), x);
}

/// Header/footer exclusion: a child scope delimited by the header line at
/// position `h` (whose brace raises the depth from 0 to 1) and the footer
/// line at position `f` (whose brace lowers it back to 0) is built, as
/// the scan shows, from exactly the lines strictly between the two; so
/// when lines are numbered by their position, neither the header's nor
/// the footer's number ever occurs in the content of that child tree.
pub proof fn lemma_header_footer_excluded(l: Seq<LineModel>, h: int, f: int, x: LineModel)
    requires
        forall|k: int| 0 <= k < l.len() ==> #[trigger] l[k].number == k as nat,
        0 <= h < f < l.len(),
        build_result(l.subrange(h + 1, f)) is Ok,
        in_subtree(x, build_result(l.subrange(h + 1, f))->Ok_0),
    ensures
        x.number != l[h].number,
        x.number != l[f].number,
{
    let sub = l.subrange(h + 1, f);
    lemma_tree_lines_from_input(sub, x);
    let j = choose|j: int| 0 <= j < sub.len() && sub[j] == x;
    assert(x.number == l[h + 1 + j].number);
}

/// Whether the text contains the character `c`.
fn contains_char(s: &str, c: char) -> (b: bool)
    ensures
        b == has_char(s@, c),
{
    let n = s.unicode_len();
    let mut j: usize = 0;
    while j < n
        invariant
            n == s@.len(),
            j <= n,
            forall|k: int| 0 <= k < j as int ==> s@[k] != c,
        decreases n - j,
    {
        if s.get_char(j) == c {
            return true;
        }
        j = j + 1;
    }
    false
}

impl Block {
    /// Builds the scope tree of `lines`, or reports the brace imbalance
    /// that prevents it. The result is exactly what the structural scan
    /// ([`build_result`]) assigns to the line sequence.
    pub fn build(lines: &Vec<SourceLine>) -> (r: Result<Block, StructuralError>)
        ensures
            match r {
                Ok(b) => build_result(line_models(lines@)) == Ok::<BlockModel, ErrorModel>(b@),
                Err(e) => build_result(line_models(lines@)) == Err::<BlockModel, ErrorModel>(e@),
            },
    {
        proof {
            assert(lines@.subrange(0, lines@.len() as int) =~= lines@);
        }
        Self::build_range(lines, 0, lines.len())
    }

    /// Builds the scope tree of the line range `[lo, hi)` of `lines`.
    fn build_range(lines: &Vec<SourceLine>, lo: usize, hi: usize) -> (r: Result<
        Block,
        StructuralError,
    >)
        requires
            lo <= hi <= lines@.len(),
        ensures
            ({
                let l = line_models(lines@.subrange(lo as int, hi as int));
                match r {
                    Ok(b) => build_result(l) == Ok::<BlockModel, ErrorModel>(b@),
                    Err(e) => build_result(l) == Err::<BlockModel, ErrorModel>(e@),
                }
            }),
        decreases hi - lo,
    {
        let ghost l = line_models(lines@.subrange(lo as int, hi as int));
        let mut own: Vec<SourceLine> = Vec::new();
        let mut kids: Vec<Block> = Vec::new();
        let mut depth: usize = 0;
        let mut gstart: usize = lo;
        let mut i: usize = lo;
        proof {
            assert(line_models(own@) =~= Seq::<LineModel>::empty());
        }
        while i < hi
            invariant
                lo <= i <= hi <= lines@.len(),
                depth as int <= i - lo,
                depth > 0 ==> lo + 1 <= gstart <= i,
                depth == 0 ==> gstart == lo,
                l == line_models(lines@.subrange(lo as int, hi as int)),
                scope_scan(l, 0, 0, 0, Seq::empty(), Seq::empty()) == scope_scan(
                    l,
                    i - lo,
                    depth as nat,
                    gstart - lo,
                    line_models(own@),
                    block_models(kids@),
                ),
            decreases hi - i,
        {
            let ghost pre_i = i as int;
            let ghost pre_depth = depth as nat;
            let ghost pre_start = gstart - lo;
            let ghost pre_kids_vec = kids@;
            let ghost pre_own = line_models(own@);
            let ghost pre_kids = block_models(kids@);
            proof {
                assert(l[pre_i - lo] == lines@.subrange(lo as int, hi as int)[pre_i - lo]@);
                assert(l[pre_i - lo].text == lines@[pre_i]@.text);
            }
            let line = &(*lines)[i];
            let h_open = contains_char(line.text.as_str(), '{');
            let h_close = contains_char(line.text.as_str(), '}');
            if depth == 0 {
                if h_open {
                    depth = 1;
                    gstart = i + 1;
                } else {
                    own.push(line.clone());
                    proof {
                        assert(line_models(own@) =~= pre_own.push(l[pre_i - lo]));
                    }
                }
            } else {
                let d = if h_open {
                    depth + 1
                } else {
                    depth
                };
                if h_close && d == 1 {
                    let child = Self::build_range(lines, gstart, i);
                    proof {
                        assert(l.subrange(pre_start, pre_i - lo) =~= line_models(
                            lines@.subrange(gstart as int, i as int),
                        ));
                    }
                    match child {
                        Ok(c) => {
                            let ghost cm = block_model(c);
                            kids.push(c);
                            depth = 0;
                            gstart = lo;
                            proof {
                                assert(kids@.drop_last() =~= pre_kids_vec);
                                assert(block_models(kids@) == pre_kids.push(cm));
                            }
                        },
                        Err(e) => {
                            proof {
                                assert(scope_scan(l, pre_i - lo, pre_depth, pre_start, pre_own,
                                    pre_kids) == Err::<BlockModel, ErrorModel>(e@));
                            }
                            return Err(e);
                        },
                    }
                } else if h_close {
                    depth = d - 1;
                } else {
                    depth = d;
                }
            }
            i = i + 1;
            proof {
                assert(scope_scan(l, pre_i - lo, pre_depth, pre_start, pre_own, pre_kids) == scope_scan(
                    l,
                    i - lo,
                    depth as nat,
                    gstart - lo,
                    line_models(own@),
                    block_models(kids@),
                ));
            }
        }
        if depth == 0 {
            let ghost own_v = line_models(own@);
            let ghost kids_v = block_models(kids@);
            let b = Block { lines: own, children: kids };
            proof {
                assert(block_model(b).lines == own_v);
                assert(block_model(b).children == kids_v);
            }
            Ok(b)
        } else {
            let e = StructuralError {
                open_from: lines[gstart - 1].number,
                open_to: lines[hi - 1].number,
            };
            proof {
                assert(l[gstart - lo - 1].number == lines@[gstart - 1]@.number);
                assert(l[l.len() - 1].number == lines@[hi - 1]@.number);
            }
            Err(e)
        }
    }
}

} // verus!
