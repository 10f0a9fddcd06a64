//! Runtime values: the typed contents of the evaluator's value stack.

use vstd::prelude::*;

verus! {

broadcast use vstd::std_specs::vec::group_vec_axioms;

/// A runtime value: a number, a list of values, or a reference to a bound
/// name.
#[derive(Debug, PartialEq, Eq)]
pub enum Value {
    Num(i64),
    List(Vec<Value>),
    Ref(Vec<char>),
}

/// Mathematical model of a runtime value.
#[verifier::ext_equal]
pub enum ValSpec {
    Num(i64),
    List(Seq<ValSpec>),
    Ref(Seq<char>),
}

/// The model of a runtime value.
pub open spec fn val_view(v: Value) -> ValSpec
    decreases v,
{
    match v {
        Value::Num(n) => ValSpec::Num(n),
        Value::List(items) => ValSpec::List(seq_val_view(items@)),
        Value::Ref(name) => ValSpec::Ref(name@),
    }
}

/// The model of an ordered sequence of runtime values.
pub open spec fn seq_val_view(vs: Seq<Value>) -> Seq<ValSpec>
    decreases vs,
{
    if vs.len() == 0 {
        seq![]
    } else {
        seq_val_view(vs.drop_last()).push(val_view(vs.last()))
    }
}

impl View for Value {
    type V = ValSpec;

    open spec fn view(&self) -> ValSpec {
        val_view(*self)
    }
}

impl DeepView for Value {
    type V = ValSpec;

    open spec fn deep_view(&self) -> ValSpec {
        val_view(*self)
    }
}

/// Each value of a sequence contributes its own model, in order.
pub proof fn lemma_seq_val_view(vs: Seq<Value>)
    ensures
        seq_val_view(vs).len() == vs.len(),
        forall|i: int| 0 <= i < vs.len() ==> seq_val_view(vs)[i] == #[trigger] val_view(vs[i]),
    decreases vs.len(),
{
    if vs.len() > 0 {
        lemma_seq_val_view(vs.drop_last());
        assert forall|i: int| 0 <= i < vs.len() implies seq_val_view(vs)[i]
            == #[trigger] val_view(vs[i]) by {
            if i < vs.len() - 1 {
                assert(vs.drop_last()[i] == vs[i]);
            }
        }
    }
}

impl Clone for Value {
    /// A structural copy: the copy stands for the same runtime value.
    #[verifier::loop_isolation(false)]
    fn clone(&self) -> (r: Self)
        ensures
            r@ == self@,
        decreases *self,
    {
        match self {
            Value::Num(n) => Value::Num(*n),
            Value::Ref(name) => Value::Ref(crate::syntax::clone_chars(name)),
            Value::List(items) => {
                let mut out: Vec<Value> = Vec::new();
                let mut i: usize = 0;
                while i < items.len()
                    invariant
                        i <= items.len(),
                        out@.len() == i as int,
                        forall|k: int| 0 <= k < i ==> #[trigger] val_view(out@[k])
                            == val_view(items@[k]),
                    decreases items.len() - i,
                {
                    out.push(items[i].clone());
                    i = i + 1;
                }
                proof {
                    lemma_seq_val_view(out@);
                    lemma_seq_val_view(items@);
                    assert forall|k: int| 0 <= k < seq_val_view(out@).len() implies
                        seq_val_view(out@)[k] == seq_val_view(items@)[k] by {
                        assert(val_view(out@[k]) == val_view(items@[k]));
                    }
                    assert(seq_val_view(out@) =~= seq_val_view(items@));
                }
                Value::List(out)
            }
        }
    }
}

} // verus!

verus! {

/// Appending a value appends its model.
pub proof fn lemma_seq_val_view_push(s: Seq<Value>, x: Value)
    ensures
        seq_val_view(s.push(x)) == seq_val_view(s).push(val_view(x)),
{
    assert(s.push(x).drop_last() =~= s);
}

/// Dropping the last value drops the last model.
pub proof fn lemma_seq_val_view_drop_last(s: Seq<Value>)
    requires
        s.len() > 0,
    ensures
        seq_val_view(s).drop_last() == seq_val_view(s.drop_last()),
        seq_val_view(s).last() == val_view(s.last()),
        seq_val_view(s).len() == s.len(),
{
    lemma_seq_val_view(s);
    assert(seq_val_view(s.drop_last()).push(val_view(s.last())).drop_last()
        =~= seq_val_view(s.drop_last()));
}

} // verus!
