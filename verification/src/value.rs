//! The values that matching yields.

use vstd::prelude::*;
use crate::input::{Span, SpanView};

verus! {

/// What a value is, as plain values.
pub enum ValueView {
    Unit,
    Span(SpanView),
    List(Seq<ValueView>),
    Opt(Option<Box<ValueView>>),
    Tuple(Seq<ValueView>),
}

/// The value of a match.
#[derive(Debug, PartialEq, Eq)]
pub enum Value<'a> {
    /// The value of everything that captures nothing.
    Unit,
    /// The range that a captured expression consumed.
    Span(Span<'a>),
    /// The values of a repetition, in the order matched.
    List(Vec<Value<'a>>),
    /// The value of an optional expression, absent where it did not match.
    Opt(Option<Box<Value<'a>>>),
    /// Values side by side.
    Tuple(Vec<Value<'a>>),
}

impl<'a> Value<'a> {
    /// The value as plain values, level by level.
    pub open spec fn model(&self) -> ValueView
        decreases self,
    {
        match self {
            Value::Unit => ValueView::Unit,
            Value::Span(span) => ValueView::Span(span@),
            Value::List(items) => ValueView::List(
                Seq::new(
                    items.len() as nat,
                    |i: int|
                        if 0 <= i < items.len() {
                            items[i].model()
                        } else {
                            ValueView::Unit
                        },
                ),
            ),
            Value::Opt(None) => ValueView::Opt(None),
            Value::Opt(Some(inner)) => ValueView::Opt(Some(Box::new(inner.model()))),
            Value::Tuple(items) => ValueView::Tuple(
                Seq::new(
                    items.len() as nat,
                    |i: int|
                        if 0 <= i < items.len() {
                            items[i].model()
                        } else {
                            ValueView::Unit
                        },
                ),
            ),
        }
    }
}

impl<'a> Value<'a> {
    /// A second value equal to this one.
    pub fn duplicate(&self) -> (copy: Value<'a>)
        ensures
            copy@ == self@,
        decreases self,
    {
        match self {
            Value::Unit => Value::Unit,
            Value::Span(span) => Value::Span(*span),
            Value::List(items) => {
                let copies = duplicate_all(items);
                assert(Value::List(copies)@ =~= self@) by {
                    assert(Value::List(copies)@->List_0 =~= self@->List_0);
                }
                Value::List(copies)
            },
            Value::Opt(None) => Value::Opt(None),
            Value::Opt(Some(inner)) => Value::Opt(Some(Box::new(inner.duplicate()))),
            Value::Tuple(items) => {
                let copies = duplicate_all(items);
                assert(Value::Tuple(copies)@ =~= self@) by {
                    assert(Value::Tuple(copies)@->Tuple_0 =~= self@->Tuple_0);
                }
                Value::Tuple(copies)
            },
        }
    }
}

/// The values of `items`, each a second time.
pub fn duplicate_all<'a>(items: &Vec<Value<'a>>) -> (copies: Vec<Value<'a>>)
    ensures
        copies.len() == items.len(),
        forall|i: int| 0 <= i < items.len() ==> (#[trigger] copies[i])@ == items[i]@,
    decreases items,
{
    let mut copies: Vec<Value<'a>> = Vec::new();
    let mut i: usize = 0;
    while i < items.len()
        invariant
            i <= items.len(),
            copies.len() == i,
            forall|j: int| 0 <= j < i ==> (#[trigger] copies[j])@ == items[j]@,
        decreases items.len() - i,
    {
        let copy = items[i].duplicate();
        copies.push(copy);
        i = i + 1;
    }
    copies
}

/// The models of values, in order.
pub open spec fn models<'a>(items: Seq<Value<'a>>) -> Seq<ValueView> {
    Seq::new(items.len(), |i: int| items[i]@)
}

/// A list is modelled by the models of its items.
pub proof fn lemma_list_model<'a>(items: Vec<Value<'a>>)
    ensures
        Value::List(items)@ == ValueView::List(models(items@)),
        Value::Tuple(items)@ == ValueView::Tuple(models(items@)),
{
    assert(Value::List(items)@->List_0 =~= models(items@));
    assert(Value::Tuple(items)@->Tuple_0 =~= models(items@));
}

impl<'a> View for Value<'a> {
    type V = ValueView;

    open spec fn view(&self) -> ValueView {
        self.model()
    }
}

} // verus!
