//! Morphology facade: turns the token nodes reported by the external
//! tokenizer into complete (surface, dictionary form, reading)
//! triples, with deterministic fallbacks where the dictionary carries
//! the `"*"` placeholder. The tokenizer itself is an external
//! collaborator: callers hand in its nodes, and, for each node whose
//! reading slot is the placeholder, the nodes of re-tokenizing that
//! node's dictionary form.

use vstd::prelude::*;
use crate::store::first_where;
use crate::store::lemma_first_where_skip_end;
use crate::store::lemma_first_where_skip_found;
use crate::store::lemma_first_where_skip_step;
use crate::store::lemma_first_where_some;
use crate::store::lemma_filter_take_step;
use crate::store::lemma_filter_all_false;

verus! {

/// One node of the external tokenizer's output: the surface span, the
/// comma-separated feature vector, and whether the node is one of the
/// begin/end sentinels that carry no text.
pub struct TokenNode {
    pub surface: String,
    pub features: Vec<String>,
    pub is_sentinel: bool,
}

/// One analyzed token: the surface form with its canonical dictionary
/// form and reading, plus the raw feature vector.
pub struct Morpheme {
    pub morpheme: String,
    pub dictionary_form: String,
    pub reading: String,
    pub features: Vec<String>,
}

/// The dictionary-form slot sits third from the end of the feature
/// vector; the placeholder `"*"` (and a vector too short to carry the
/// slot) falls back to the surface form.
pub open spec fn spec_dictionary_form(node: TokenNode) -> Seq<char> {
    let fs = node.features@;
    if fs.len() >= 3 && fs[fs.len() - 3]@ != "*"@ {
        fs[fs.len() - 3]@
    } else {
        node.surface@
    }
}

/// The reading drawn from a re-tokenization: the first non-sentinel
/// node's reading slot (second from the end), unless there is no such
/// node or the slot is absent or the placeholder, in which case the
/// given default stands.
pub open spec fn spec_dictionary_form_to_reading(nodes: Seq<TokenNode>, default: Seq<char>) -> Seq<
    char,
> {
    match first_where(nodes, |n: TokenNode| !n.is_sentinel) {
        Option::None => default,
        Option::Some(node) => {
            let fs = node.features@;
            if fs.len() >= 2 && fs[fs.len() - 2]@ != "*"@ {
                fs[fs.len() - 2]@
            } else {
                default
            }
        },
    }
}

/// The reading slot sits second from the end of the feature vector;
/// the placeholder (and a vector too short to carry the slot pair)
/// falls back to re-tokenizing the dictionary form, and failing that
/// to the dictionary form itself.
pub open spec fn spec_reading(node: TokenNode, retok: Seq<TokenNode>) -> Seq<char> {
    let fs = node.features@;
    if fs.len() >= 3 && fs[fs.len() - 2]@ != "*"@ {
        fs[fs.len() - 2]@
    } else {
        spec_dictionary_form_to_reading(retok, spec_dictionary_form(node))
    }
}

/// The morpheme is the complete triple produced for the node, given
/// the re-tokenization of the node's dictionary form.
pub open spec fn morpheme_matches(m: Morpheme, node: TokenNode, retok: Seq<TokenNode>) -> bool {
    &&& m.morpheme@ == node.surface@
    &&& m.dictionary_form@ == spec_dictionary_form(node)
    &&& m.reading@ == spec_reading(node, retok)
    &&& m.features@ == node.features@
}

/// Each node paired with the re-tokenization handed in for it.
pub open spec fn token_pairs(nodes: Seq<TokenNode>, retoks: Seq<Vec<TokenNode>>) -> Seq<
    (TokenNode, Vec<TokenNode>),
> {
    Seq::new(nodes.len(), |i: int| (nodes[i], retoks[i]))
}

/// The pairs whose node is not a sentinel, in token order: exactly the
/// tokens the analysis reports on.
pub open spec fn content_pairs(nodes: Seq<TokenNode>, retoks: Seq<Vec<TokenNode>>) -> Seq<
    (TokenNode, Vec<TokenNode>),
> {
    token_pairs(nodes, retoks).filter(|p: (TokenNode, Vec<TokenNode>)| !p.0.is_sentinel)
}

/// A copy of a string vector, element for element.
fn clone_string_vec(v: &Vec<String>) -> (r: Vec<String>)
    ensures
        r@ == v@,
{
    let mut out: Vec<String> = Vec::new();
    let n: usize = v.len();
    let mut i: usize = 0;
    while i < n
        invariant
            0 <= i <= n,
            n == v@.len(),
            out@ == v@.take(i as int),
        decreases n - i,
    {
        out.push(v[i].clone());
        proof {
            assert(v@.take(i as int + 1) =~= v@.take(i as int).push(v@[i as int]));
        }
        i = i + 1;
    }
    proof {
        assert(v@.take(n as int) =~= v@);
    }
    out
}

/// Whether the node's reading slot is absent or the placeholder, so
/// that the caller must re-tokenize the dictionary form before
/// building the morpheme.
pub fn needs_reading_lookup(node: &TokenNode) -> (r: bool)
    ensures
        r == !(node.features@.len() >= 3 && node.features@[node.features@.len() - 2]@ != "*"@),
{
    let star: String = "*".to_owned();
    let len: usize = node.features.len();
    !(len >= 3 && !(node.features[len - 2] == star))
}

/// The node's dictionary form, after the fallback rule.
pub fn dictionary_form_of(node: &TokenNode) -> (r: String)
    ensures
        r@ == spec_dictionary_form(*node),
{
    let star: String = "*".to_owned();
    let len: usize = node.features.len();
    if len >= 3 && !(node.features[len - 3] == star) {
        node.features[len - 3].clone()
    } else {
        node.surface.clone()
    }
}

/// The reading found by re-tokenizing a dictionary form: the first
/// non-sentinel node's reading slot, or the given default when there
/// is no such node or the slot is absent or the placeholder.
pub fn dictionary_form_to_reading(nodes: &Vec<TokenNode>, default: String) -> (r: String)
    ensures
        r@ == spec_dictionary_form_to_reading(nodes@, default@),
{
    let ghost p = |n: TokenNode| !n.is_sentinel;
    let star: String = "*".to_owned();
    let n: usize = nodes.len();
    let mut i: usize = 0;
    proof {
        assert(nodes@.skip(0) =~= nodes@);
    }
    while i < n
        invariant
            0 <= i <= n,
            n == nodes@.len(),
            star@ == "*"@,
            p == (|n: TokenNode| !n.is_sentinel),
            first_where(nodes@, p) == first_where(nodes@.skip(i as int), p),
        decreases n - i,
    {
        if !nodes[i].is_sentinel {
            proof {
                lemma_first_where_skip_found(nodes@, p, i as int);
            }
            let len: usize = nodes[i].features.len();
            if len >= 2 && !(nodes[i].features[len - 2] == star) {
                return nodes[i].features[len - 2].clone();
            } else {
                return default;
            }
        }
        proof {
            lemma_first_where_skip_step(nodes@, p, i as int);
        }
        i = i + 1;
    }
    proof {
        lemma_first_where_skip_end(nodes@, p);
    }
    default
}

/// Analyzes a tokenized sentence: every non-sentinel node becomes one
/// morpheme, in token order, with the fallback rules applied. The
/// caller passes, aligned with `nodes`, the re-tokenization of each
/// node's dictionary form where `needs_reading_lookup` asked for one
/// (an empty vector serves for the rest).
pub fn analyze_sentence(nodes: &Vec<TokenNode>, retoks: &Vec<Vec<TokenNode>>) -> (r: Vec<Morpheme>)
    requires
        nodes@.len() == retoks@.len(),
    ensures
        r@.len() == content_pairs(nodes@, retoks@).len(),
        forall|k: int|
            0 <= k < r@.len() ==> morpheme_matches(
                #[trigger] r@[k],
                content_pairs(nodes@, retoks@)[k].0,
                content_pairs(nodes@, retoks@)[k].1@,
            ),
{
    let ghost cp = |p: (TokenNode, Vec<TokenNode>)| !p.0.is_sentinel;
    let star: String = "*".to_owned();
    let mut out: Vec<Morpheme> = Vec::new();
    let n: usize = nodes.len();
    let mut i: usize = 0;
    proof {
        assert(token_pairs(nodes@, retoks@).take(0) =~= Seq::<(TokenNode, Vec<TokenNode>)>::empty());
        lemma_filter_all_false(Seq::<(TokenNode, Vec<TokenNode>)>::empty(), cp);
    }
    while i < n
        invariant
            0 <= i <= n,
            n == nodes@.len(),
            n == retoks@.len(),
            star@ == "*"@,
            cp == (|p: (TokenNode, Vec<TokenNode>)| !p.0.is_sentinel),
            out@.len() == token_pairs(nodes@, retoks@).take(i as int).filter(cp).len(),
            forall|k: int|
                0 <= k < out@.len() ==> morpheme_matches(
                    #[trigger] out@[k],
                    token_pairs(nodes@, retoks@).take(i as int).filter(cp)[k].0,
                    token_pairs(nodes@, retoks@).take(i as int).filter(cp)[k].1@,
                ),
        decreases n - i,
    {
        proof {
            lemma_filter_take_step(token_pairs(nodes@, retoks@), cp, i as int);
            assert(token_pairs(nodes@, retoks@)[i as int] == (nodes@[i as int], retoks@[i as int]));
        }
        if !nodes[i].is_sentinel {
            let df = dictionary_form_of(&nodes[i]);
            let len: usize = nodes[i].features.len();
            let rd: String = if len >= 3 && !(nodes[i].features[len - 2] == star) {
                nodes[i].features[len - 2].clone()
            } else {
                dictionary_form_to_reading(&retoks[i], df.clone())
            };
            let m = Morpheme {
                morpheme: nodes[i].surface.clone(),
                dictionary_form: df,
                reading: rd,
                features: clone_string_vec(&nodes[i].features),
            };
            proof {
                assert(morpheme_matches(m, nodes@[i as int], retoks@[i as int]@));
            }
            out.push(m);
        }
        i = i + 1;
    }
    proof {
        assert(token_pairs(nodes@, retoks@).take(n as int) =~= token_pairs(nodes@, retoks@));
    }
    out
}

/// The inputs a real tokenizer hands over: a non-empty surface span
/// and no empty feature entries (absent annotations carry the `"*"`
/// placeholder instead).
pub open spec fn node_wf(n: TokenNode) -> bool {
    n.surface@.len() > 0 && forall|j: int|
        0 <= j < n.features@.len() ==> (#[trigger] n.features@[j])@.len() > 0
}

/// Law (morphology completeness): a morpheme produced for a
/// well-formed node, from well-formed re-tokenization nodes, has a
/// non-empty surface, dictionary form and reading. Together with the
/// analysis contract this covers every morpheme the facade produces.
pub proof fn lemma_morphology_completeness(m: Morpheme, node: TokenNode, retok: Seq<TokenNode>)
    requires
        morpheme_matches(m, node, retok),
        node_wf(node),
        forall|j: int| 0 <= j < retok.len() ==> node_wf(#[trigger] retok[j]),
    ensures
        m.morpheme@.len() > 0,
        m.dictionary_form@.len() > 0,
        m.reading@.len() > 0,
{
    if !(node.features@.len() >= 3 && node.features@[node.features@.len() - 2]@ != "*"@) {
        let p = |n: TokenNode| !n.is_sentinel;
        if first_where(retok, p) is Some {
            lemma_first_where_some(retok, p);
        }
    }
}

/// Law (fallback substitution): where the dictionary-form slot holds
/// the placeholder, the morpheme's dictionary form is the surface
/// form; where the reading slot holds the placeholder, the reading is
/// drawn from the re-tokenization, with the computed dictionary form
/// as the final fallback.
pub proof fn lemma_fallback_substitution(m: Morpheme, node: TokenNode, retok: Seq<TokenNode>)
    requires
        morpheme_matches(m, node, retok),
    ensures
        (node.features@.len() >= 3 && node.features@[node.features@.len() - 3]@ == "*"@)
            ==> m.dictionary_form@ == node.surface@,
        (node.features@.len() >= 3 && node.features@[node.features@.len() - 2]@ == "*"@)
            ==> m.reading@ == spec_dictionary_form_to_reading(retok, spec_dictionary_form(node)),
{
}

} // verus!
