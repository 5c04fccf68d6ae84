//! Values of list notation: expressions with their terminals resolved.

use super::token::Gate;
use crate::text::{joined, listed};
use vstd::prelude::*;
use vstd::string::StringExecFns;

verus! {

/// An expression in which each terminal is replaced by its truth.
#[derive(Debug, PartialEq)]
pub enum Value {
    Thruth(bool),
    Gate(Gate),
    List(List),
}

/// A list of values.
#[derive(Debug, PartialEq)]
pub struct List(pub Vec<Value>);

/// The value of a [`Value`].
pub enum ValueView {
    Thruth(bool),
    Gate(Gate),
    List(Seq<ValueView>),
}

/// The value of a value: its truth, its gate, or the values of its items.
pub open spec fn value_view(value: Value) -> ValueView
    decreases value,
{
    match value {
        Value::Thruth(thruth) => ValueView::Thruth(thruth),
        Value::Gate(gate) => ValueView::Gate(gate),
        Value::List(list) => ValueView::List(
            Seq::new(
                list.0.len() as nat,
                |i: int|
                    if 0 <= i < list.0.len() {
                        value_view(list.0[i])
                    } else {
                        ValueView::List(Seq::empty())
                    },
            ),
        ),
    }
}

impl View for Value {
    type V = ValueView;

    open spec fn view(&self) -> ValueView {
        value_view(*self)
    }
}

/// The values of a sequence of values.
pub open spec fn value_views(list: Seq<Value>) -> Seq<ValueView> {
    Seq::new(list.len(), |i: int| list[i]@)
}

/// The value of a list is the list of its items' values.
pub proof fn lemma_value_list_view(list: Vec<Value>)
    ensures
        Value::List(List(list))@ == ValueView::List(value_views(list@)),
{
    assert(Value::List(List(list))@->List_0 =~= value_views(list@));
}

impl ValueView {
    /// The name of the value's kind.
    pub open spec fn name(self) -> Seq<char> {
        match self {
            ValueView::Thruth(_) => "Thruth"@,
            ValueView::Gate(_) => "Gate"@,
            ValueView::List(_) => "List"@,
        }
    }
}

/// The names of the kinds of `items`.
pub open spec fn names(items: Seq<ValueView>) -> Seq<Seq<char>> {
    Seq::new(items.len(), |i: int| items[i].name())
}

impl Clone for Value {
    fn clone(&self) -> (copy: Self)
        ensures
            copy@ == self@,
        decreases self,
    {
        match self {
            Value::Thruth(thruth) => Value::Thruth(*thruth),
            Value::Gate(gate) => Value::Gate(*gate),
            Value::List(list) => {
                let mut items: Vec<Value> = Vec::new();
                let mut i: usize = 0;
                while i < list.0.len()
                    invariant
                        0 <= i <= list.0.len(),
                        *self == Value::List(*list),
                        decreases_to!(*self => list.0),
                        items.len() == i,
                        forall|j: int| 0 <= j < i ==> items@[j]@ == list.0@[j]@,
                    decreases list.0.len() - i,
                {
                    items.push(list.0[i].clone());
                    i += 1;
                }
                proof {
                    lemma_value_list_view(items);
                    assert(self@->List_0 =~= value_views(items@));
                }
                Value::List(List(items))
            },
        }
    }
}

impl Clone for List {
    fn clone(&self) -> (copy: Self)
        ensures
            Value::List(copy)@ == Value::List(*self)@,
    {
        let mut items: Vec<Value> = Vec::new();
        let mut i: usize = 0;
        while i < self.0.len()
            invariant
                0 <= i <= self.0.len(),
                items.len() == i,
                forall|j: int| 0 <= j < i ==> items@[j]@ == self.0@[j]@,
            decreases self.0.len() - i,
        {
            items.push(self.0[i].clone());
            i += 1;
        }
        proof {
            lemma_value_list_view(items);
            assert(Value::List(*self)@->List_0 =~= value_views(items@));
        }
        List(items)
    }
}

impl Value {
    /// The name of the value's kind, as text.
    pub fn to_string(&self) -> (text: String)
        ensures
            text@ == self@.name(),
    {
        match self {
            Value::Thruth(_) => "Thruth".to_owned(),
            Value::Gate(_) => "Gate".to_owned(),
            Value::List(_) => "List".to_owned(),
        }
    }
}

impl List {
    /// The names of the kinds of the items, as a list.
    pub fn to_string(&self) -> (text: String)
        ensures
            text@ == listed(names(value_views(self.0@))),
    {
        let ghost all = names(value_views(self.0@));
        let mut text = String::new();
        text.push('(');
        let mut i: usize = 0;
        while i < self.0.len()
            invariant
                0 <= i <= self.0.len(),
                all == names(value_views(self.0@)),
                text@ == seq!['('] + joined(all.take(i as int)),
            decreases self.0.len() - i,
        {
            if i > 0 {
                text.push(' ');
            }
            let name = self.0[i].to_string();
            text.append(name.as_str());
            proof {
                assert(all.take(i + 1).drop_last() =~= all.take(i as int));
            }
            i += 1;
        }
        text.push(')');
        proof {
            assert(all.take(self.0.len() as int) =~= all);
        }
        text
    }
}

} // verus!
