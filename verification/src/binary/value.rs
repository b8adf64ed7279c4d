//! The values that a bytecode file's constant pool holds.

use vstd::prelude::*;

verus! {

/// The byte that marks an integer value.
pub const INT: u8 = 0x01;
/// The byte that marks a floating-point value.
pub const FLOAT: u8 = 0x02;
/// The byte that marks a string value.
pub const STRING: u8 = 0x03;
/// The byte that marks a boolean value.
pub const BOOL: u8 = 0x04;
/// The byte that marks a bundle of values.
pub const BUNDLE: u8 = 0x05;

/// A value of the virtual machine. A float is held as its IEEE-754 bits.
#[derive(Debug)]
pub enum Value {
    Nil,
    Int(i64),
    Float(u64),
    String(String),
    Bool(bool),
    Func,
    Bundle(Vec<Value>),
}

/// The mathematical content of a value: strings as their characters.
pub enum ValueModel {
    Nil,
    Int(i64),
    Float(u64),
    String(Seq<char>),
    Bool(bool),
    Func,
    Bundle(Seq<ValueModel>),
}

impl Value {
    pub open spec fn model(self) -> ValueModel
        decreases self,
    {
        match self {
            Value::Nil => ValueModel::Nil,
            Value::Int(n) => ValueModel::Int(n),
            Value::Float(bits) => ValueModel::Float(bits),
            Value::String(s) => ValueModel::String(s@),
            Value::Bool(b) => ValueModel::Bool(b),
            Value::Func => ValueModel::Func,
            Value::Bundle(items) => ValueModel::Bundle(models(items@)),
        }
    }
}

/// The contents of a sequence of values, in order.
pub open spec fn models(items: Seq<Value>) -> Seq<ValueModel>
    decreases items,
{
    if items.len() == 0 {
        Seq::empty()
    } else {
        models(items.drop_last()).push(items.last().model())
    }
}

pub proof fn lemma_models_len(items: Seq<Value>)
    ensures
        models(items).len() == items.len(),
    decreases items.len(),
{
    if items.len() > 0 {
        lemma_models_len(items.drop_last());
    }
}

pub proof fn lemma_models_index(items: Seq<Value>, i: int)
    requires
        0 <= i < items.len(),
    ensures
        models(items)[i] == items[i].model(),
    decreases items.len(),
{
    lemma_models_len(items.drop_last());
    if i < items.len() - 1 {
        lemma_models_index(items.drop_last(), i);
    }
}

impl Value {
    /// Whether this value and `other` are the same: of the same kind, with
    /// the same content; floats are compared by their bits.
    #[verifier::loop_isolation(false)]
    pub fn equals(&self, other: &Value) -> (b: bool)
        ensures
            b == (self.model() == other.model()),
        decreases self,
    {
        match (self, other) {
            (Value::Nil, Value::Nil) => true,
            (Value::Int(a), Value::Int(b)) => *a == *b,
            (Value::Float(a), Value::Float(b)) => *a == *b,
            (Value::String(a), Value::String(b)) => *a == *b,
            (Value::Bool(a), Value::Bool(b)) => *a == *b,
            (Value::Func, Value::Func) => true,
            (Value::Bundle(a), Value::Bundle(b)) => {
                proof {
                    lemma_models_len(a@);
                    lemma_models_len(b@);
                }
                if a.len() != b.len() {
                    proof {
                        assert(models(a@).len() != models(b@).len());
                    }
                    return false;
                }
                let mut i: usize = 0;
                while i < a.len()
                    invariant
                        0 <= i <= a@.len(),
                        a@.len() == b@.len(),
                        forall|j: int| 0 <= j < i ==> #[trigger] a@[j].model() == b@[j].model(),
                    decreases a.len() - i,
                {
                    proof {
                        assert(decreases_to!(a => a[i as int]));
                    }
                    if !a[i].equals(&b[i]) {
                        proof {
                            lemma_models_index(a@, i as int);
                            lemma_models_index(b@, i as int);
                            assert(models(a@)[i as int] != models(b@)[i as int]);
                            assert(models(a@) != models(b@));
                        }
                        return false;
                    }
                    i = i + 1;
                }
                proof {
                    assert forall|j: int| 0 <= j < models(a@).len() implies models(a@)[j] == models(b@)[j] by {
                        lemma_models_index(a@, j);
                        lemma_models_index(b@, j);
                    }
                    assert(models(a@) =~= models(b@));
                }
                true
            },
            _ => false,
        }
    }
}

} // verus!
