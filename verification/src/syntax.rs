//! Hierarchical syntax representation: word leaves and ordered trees of
//! nested sub-expressions.

use vstd::prelude::*;

verus! {

broadcast use vstd::std_specs::vec::group_vec_axioms;

/// A syntax node: a word leaf, or a bracket-delimited context holding an
/// ordered sequence of children. Order is program order and determines
/// evaluation order.
#[derive(Debug, PartialEq, Eq)]
pub enum Sub {
    Word(Vec<char>),
    Tree(Vec<Sub>),
}

/// Mathematical model of a syntax node.
#[verifier::ext_equal]
pub enum SubSpec {
    Word(Seq<char>),
    Tree(Seq<SubSpec>),
}

/// The model of a syntax node.
pub open spec fn sub_view(s: Sub) -> SubSpec
    decreases s,
{
    match s {
        Sub::Word(w) => SubSpec::Word(w@),
        Sub::Tree(ch) => SubSpec::Tree(seq_sub_view(ch@)),
    }
}

/// The model of an ordered sequence of syntax nodes.
pub open spec fn seq_sub_view(ss: Seq<Sub>) -> Seq<SubSpec>
    decreases ss,
{
    if ss.len() == 0 {
        seq![]
    } else {
        seq_sub_view(ss.drop_last()).push(sub_view(ss.last()))
    }
}

/// Each node of a sequence contributes its own model, in order.
pub proof fn lemma_seq_sub_view(ss: Seq<Sub>)
    ensures
        seq_sub_view(ss).len() == ss.len(),
        forall|i: int| 0 <= i < ss.len() ==> seq_sub_view(ss)[i] == #[trigger] sub_view(ss[i]),
    decreases ss.len(),
{
    if ss.len() > 0 {
        lemma_seq_sub_view(ss.drop_last());
        assert forall|i: int| 0 <= i < ss.len() implies seq_sub_view(ss)[i]
            == #[trigger] sub_view(ss[i]) by {
            if i < ss.len() - 1 {
                assert(ss.drop_last()[i] == ss[i]);
            }
        }
    }
}

/// Sequences of nodes with equal models, node for node, have equal models.
pub proof fn lemma_seq_sub_view_ext(a: Seq<Sub>, b: Seq<Sub>)
    requires
        a.len() == b.len(),
        forall|k: int| 0 <= k < a.len() ==> #[trigger] sub_view(a[k]) == sub_view(b[k]),
    ensures
        seq_sub_view(a) == seq_sub_view(b),
{
    lemma_seq_sub_view(a);
    lemma_seq_sub_view(b);
    assert forall|k: int| 0 <= k < seq_sub_view(a).len() implies seq_sub_view(a)[k]
        == seq_sub_view(b)[k] by {
        assert(sub_view(a[k]) == sub_view(b[k]));
    }
    assert(seq_sub_view(a) =~= seq_sub_view(b));
}

impl View for Sub {
    type V = SubSpec;

    open spec fn view(&self) -> SubSpec {
        sub_view(*self)
    }
}

impl DeepView for Sub {
    type V = SubSpec;

    open spec fn deep_view(&self) -> SubSpec {
        sub_view(*self)
    }
}

/// The model of the contents of a vector of syntax nodes.
pub open spec fn subs_view(ss: Seq<Sub>) -> Seq<SubSpec> {
    seq_sub_view(ss)
}

/// Copies a word's text.
pub fn clone_chars(v: &Vec<char>) -> (r: Vec<char>)
    ensures
        r@ == v@,
{
    let mut r: Vec<char> = Vec::new();
    let mut i: usize = 0;
    while i < v.len()
        invariant
            i <= v.len(),
            r@ =~= v@.take(i as int),
        decreases v.len() - i,
    {
        r.push(v[i]);
        proof {
            assert(r@ =~= v@.take(i as int + 1));
        }
        i = i + 1;
    }
    proof {
        assert(v@.take(v@.len() as int) =~= v@);
    }
    r
}

impl Clone for Sub {
    /// A structural copy: the copy stands for the same syntax tree.
    #[verifier::loop_isolation(false)]
    fn clone(&self) -> (r: Self)
        ensures
            r@ == self@,
        decreases *self,
    {
        match self {
            Sub::Word(w) => Sub::Word(clone_chars(w)),
            Sub::Tree(ch) => {
                let mut out: Vec<Sub> = Vec::new();
                let mut i: usize = 0;
                while i < ch.len()
                    invariant
                        i <= ch.len(),
                        out@.len() == i as int,
                        forall|k: int| 0 <= k < i ==> #[trigger] sub_view(out@[k])
                            == sub_view(ch@[k]),
                    decreases ch.len() - i,
                {
                    out.push(ch[i].clone());
                    i = i + 1;
                }
                proof {
                    lemma_seq_sub_view_ext(out@, ch@);
                }
                Sub::Tree(out)
            }
        }
    }
}

/// Copies an ordered sequence of syntax nodes.
pub fn clone_subs(v: &Vec<Sub>) -> (r: Vec<Sub>)
    ensures
        subs_view(r@) == subs_view(v@),
{
    let mut r: Vec<Sub> = Vec::new();
    let mut i: usize = 0;
    while i < v.len()
        invariant
            i <= v.len(),
            r@.len() == i as int,
            forall|k: int| 0 <= k < i ==> #[trigger] sub_view(r@[k]) == sub_view(v@[k]),
        decreases v.len() - i,
    {
        r.push(v[i].clone());
        i = i + 1;
    }
    proof {
        lemma_seq_sub_view_ext(r@, v@);
    }
    r
}

} // verus!

verus! {

/// The deep view of a vector of nodes is the model of its contents.
pub proof fn lemma_vec_sub_deep_view(v: Vec<Sub>)
    ensures
        v.deep_view() == subs_view(v@),
{
    lemma_seq_sub_view(v@);
    assert(v.deep_view() =~= subs_view(v@));
}

/// Appending a node appends its model.
pub proof fn lemma_subs_view_push(s: Seq<Sub>, x: Sub)
    ensures
        subs_view(s.push(x)) == subs_view(s).push(sub_view(x)),
{
    assert(s.push(x).drop_last() =~= s);
}

} // verus!
