//! Token tree projection: walks a scope tree depth-first and produces an
//! isomorphic tree of tokenized lines.

use vstd::prelude::*;
use crate::block::{Block, BlockModel, block_model, lemma_block_models_index, lemma_block_models_len};
use crate::line::LineModel;
use crate::token::{TokenLine, TokenLineModel, classify_to_line, line_token_models};

verus! {

broadcast use vstd::std_specs::vec::group_vec_axioms;

/// Mathematical model of a [`TokenBlock`].
pub ghost struct TokenBlockModel {
    pub lines: Seq<TokenLineModel>,
    pub children: Seq<TokenBlockModel>,
}

/// Tree node mirroring a [`Block`]: the tokenized lines of the block's
/// own scope and the projections of its children, in original order.
#[derive(Debug)]
pub struct TokenBlock {
    pub lines: Vec<TokenLine>,
    pub children: Vec<TokenBlock>,
}

/// The model of a token block: its line views and, recursively, the
/// models of its children.
pub open spec fn token_block_model(b: TokenBlock) -> TokenBlockModel
    decreases b, 1int,
{
    proof {
        assert(decreases_to!(b => b.children));
        assert(decreases_to!(b.children => b.children@));
    }
    TokenBlockModel {
        lines: b.lines@.map_values(|l: TokenLine| l@),
        children: token_block_models(b.children@),
    }
}

/// The models of a sequence of token blocks, in order.
pub open spec fn token_block_models(s: Seq<TokenBlock>) -> Seq<TokenBlockModel>
    decreases s, 0int,
{
    if s.len() == 0 {
        Seq::empty()
    } else {
        token_block_models(s.drop_last()).push(token_block_model(s.last()))
    }
}

impl View for TokenBlock {
    type V = TokenBlockModel;

    open spec fn view(&self) -> TokenBlockModel {
        token_block_model(*self)
    }
}

/// The tokenization of one line model.
pub open spec fn projected_line(l: LineModel) -> TokenLineModel {
    TokenLineModel { tokens: line_token_models(l.text, l.number), number: l.number }
}

/// The projection of a block model: every own line tokenized in order,
/// every child projected recursively in order.
pub open spec fn project_model(b: BlockModel) -> TokenBlockModel
    decreases b, 1int,
{
    TokenBlockModel {
        lines: b.lines.map_values(|l: LineModel| projected_line(l)),
        children: project_models(b.children),
    }
}

/// The projections of a sequence of block models, in order.
pub open spec fn project_models(s: Seq<BlockModel>) -> Seq<TokenBlockModel>
    decreases s, 0int,
{
    if s.len() == 0 {
        Seq::empty()
    } else {
        project_models(s.drop_last()).push(project_model(s.last()))
    }
}

/// `project_models` maps each block model of a sequence to its
/// projection.
pub proof fn lemma_project_models_len(s: Seq<BlockModel>)
    ensures
        project_models(s).len() == s.len(),
    decreases s.len(),
{
    if s.len() > 0 {
        lemma_project_models_len(s.drop_last());
    }
}

/// The projection sequence is the element-wise projection.
pub proof fn lemma_project_models_index(s: Seq<BlockModel>, i: int)
    requires
        0 <= i < s.len(),
    ensures
        project_models(s).len() == s.len(),
        project_models(s)[i] == project_model(s[i]),
    decreases s.len(),
{
    lemma_project_models_len(s);
    if i < s.len() - 1 {
        lemma_project_models_index(s.drop_last(), i);
    }
}

/// A token tree has the same shape as a scope tree: one tokenized line
/// per own line and, recursively, one child per child in the same order.
pub open spec fn same_shape(b: BlockModel, t: TokenBlockModel) -> bool
    decreases b,
{
    &&& t.lines.len() == b.lines.len()
    &&& t.children.len() == b.children.len()
    &&& forall|i: int|
        0 <= i < b.children.len() ==> same_shape(b.children[i], #[trigger] t.children[i])
}

/// Shape isomorphism: for every block model, the projection has identical
/// child counts and ordering at every node, recursively, and one token
/// line per own line.
pub proof fn lemma_projection_preserves_shape(b: BlockModel)
    ensures
        same_shape(b, project_model(b)),
    decreases b,
{
    let t = project_model(b);
    lemma_project_models_len(b.children);
    assert forall|i: int| 0 <= i < b.children.len() implies same_shape(
        b.children[i],
        #[trigger] t.children[i],
    ) by {
        lemma_project_models_index(b.children, i);
        lemma_projection_preserves_shape(b.children[i]);
    };
}

impl TokenBlock {
    /// Projects a scope tree into its token tree: tokenizes every own
    /// line of every block and mirrors the tree structure exactly.
    pub fn from_block(block: &Block) -> (r: TokenBlock)
        ensures
            r@ == project_model(block@),
        decreases *block,
    {
        let ghost bm = block_model(*block);
        let mut lines: Vec<TokenLine> = Vec::new();
        let mut i: usize = 0;
        while i < block.lines.len()
            invariant
                i <= block.lines@.len(),
                bm == block_model(*block),
                lines@.len() == i as nat,
                forall|j: int| 0 <= j < i as int ==> lines@[j]@ == projected_line(bm.lines[j]),
            decreases block.lines@.len() - i,
        {
            let tl = classify_to_line(&block.lines[i]);
            lines.push(tl);
            i = i + 1;
        }
        let mut children: Vec<TokenBlock> = Vec::new();
        let mut k: usize = 0;
        while k < block.children.len()
            invariant
                k <= block.children@.len(),
                bm == block_model(*block),
                children@.len() == k as nat,
                forall|j: int|
                    0 <= j < k as int ==> children@[j]@ == project_model(
                        block_model(block.children@[j]),
                    ),
            decreases block.children@.len() - k,
        {
            let child = Self::from_block(&block.children[k]);
            children.push(child);
            k = k + 1;
        }
        let ghost lines_v = lines@;
        let ghost kids_v = children@;
        let r = TokenBlock { lines, children };
        proof {
            assert(r.lines@ == lines_v);
            assert(r.children@ == kids_v);
            assert(r@.lines =~= bm.lines.map_values(|l: LineModel| projected_line(l)));
            lemma_project_models_len(bm.children);
            lemma_block_models_len(block.children@);
            lemma_token_block_models_index_all(kids_v);
            assert forall|j: int| 0 <= j < kids_v.len() implies token_block_models(kids_v)[j]
                == project_models(bm.children)[j] by {
                assert(token_block_models(kids_v)[j] == token_block_model(kids_v[j]));
                assert(kids_v[j]@ == project_model(block_model(block.children@[j])));
                lemma_block_models_index(block.children@, j);
                lemma_project_models_index(bm.children, j);
            };
            assert(r@.children =~= project_models(bm.children));
        }
        r
    }
}

/// The token block model sequence is the element-wise model.
proof fn lemma_token_block_models_index_all(s: Seq<TokenBlock>)
    ensures
        token_block_models(s).len() == s.len(),
        forall|i: int|
            0 <= i < s.len() ==> token_block_models(s)[i] == token_block_model(#[trigger] s[i]),
    decreases s.len(),
{
    if s.len() > 0 {
        lemma_token_block_models_index_all(s.drop_last());
        assert forall|i: int| 0 <= i < s.len() implies token_block_models(s)[i]
            == token_block_model(#[trigger] s[i]) by {
            if i < s.len() - 1 {
                assert(s.drop_last()[i] == s[i]);
                assert(token_block_models(s.drop_last())[i] == token_block_model(
                    s.drop_last()[i],
                ));
            } else {
                assert(s.last() == s[i]);
            }
        };
    }
}

} // verus!
