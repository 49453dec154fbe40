//! Structured configuration values: scalars, sequences, mappings and tagged
//! values, with the accessors that workflow logic reads them through.

use vstd::prelude::*;

verus! {

/// A number as a configuration value holds it: a non-negative integer, a
/// negative integer, or a floating-point number kept as its decimal text.
#[derive(Debug)]
pub enum YamlNumber {
    PosInt(u64),
    NegInt(i64),
    Float(String),
}

/// A configuration value.
#[derive(Debug)]
pub enum YamlValue {
    Null,
    Bool(bool),
    Number(YamlNumber),
    String(String),
    Sequence(Vec<YamlValue>),
    Mapping(Vec<(YamlValue, YamlValue)>),
    Tagged(String, Box<YamlValue>),
}

/// The mathematical content of a number.
pub enum NumberModel {
    PosInt(nat),
    NegInt(int),
    Float(Seq<char>),
}

/// The mathematical content of a configuration value.
pub enum YamlModel {
    Null,
    Bool(bool),
    Number(NumberModel),
    String(Seq<char>),
    Sequence(Seq<YamlModel>),
    Mapping(Seq<(YamlModel, YamlModel)>),
    Tagged(Seq<char>, Box<YamlModel>),
}

impl YamlNumber {
    pub open spec fn model(self) -> NumberModel {
        match self {
            YamlNumber::PosInt(n) => NumberModel::PosInt(n as nat),
            YamlNumber::NegInt(n) => NumberModel::NegInt(n as int),
            YamlNumber::Float(t) => NumberModel::Float(t@),
        }
    }

    pub fn duplicate(&self) -> (r: Self)
        ensures
            r.model() == self.model(),
    {
        match self {
            YamlNumber::PosInt(n) => YamlNumber::PosInt(*n),
            YamlNumber::NegInt(n) => YamlNumber::NegInt(*n),
            YamlNumber::Float(t) => YamlNumber::Float(t.clone()),
        }
    }
}

pub open spec fn seq_model(v: Seq<YamlValue>) -> Seq<YamlModel>
    decreases v,
{
    if v.len() == 0 {
        Seq::empty()
    } else {
        seq_model(v.drop_last()).push(v.last().model())
    }
}

pub open spec fn pairs_model(v: Seq<(YamlValue, YamlValue)>) -> Seq<(YamlModel, YamlModel)>
    decreases v,
{
    if v.len() == 0 {
        Seq::empty()
    } else {
        pairs_model(v.drop_last()).push((v.last().0.model(), v.last().1.model()))
    }
}

pub proof fn lemma_seq_model(v: Seq<YamlValue>)
    ensures
        seq_model(v).len() == v.len(),
        forall|i: int| 0 <= i < v.len() ==> #[trigger] seq_model(v)[i] == v[i].model(),
    decreases v.len(),
{
    if v.len() > 0 {
        lemma_seq_model(v.drop_last());
    }
}

pub proof fn lemma_pairs_model(v: Seq<(YamlValue, YamlValue)>)
    ensures
        pairs_model(v).len() == v.len(),
        forall|i: int| 0 <= i < v.len() ==> #[trigger] pairs_model(v)[i] == (v[i].0.model(), v[i].1.model()),
    decreases v.len(),
{
    if v.len() > 0 {
        lemma_pairs_model(v.drop_last());
    }
}

impl YamlValue {
    pub open spec fn model(self) -> YamlModel
        decreases self,
    {
        match self {
            YamlValue::Null => YamlModel::Null,
            YamlValue::Bool(b) => YamlModel::Bool(b),
            YamlValue::Number(n) => YamlModel::Number(n.model()),
            YamlValue::String(s) => YamlModel::String(s@),
            YamlValue::Sequence(v) => YamlModel::Sequence(seq_model(v@)),
            YamlValue::Mapping(v) => YamlModel::Mapping(pairs_model(v@)),
            YamlValue::Tagged(t, b) => YamlModel::Tagged(t@, Box::new((*b).model())),
        }
    }

    /// A deep copy.
    pub fn duplicate(&self) -> (r: Self)
        ensures
            r.model() == self.model(),
        decreases self,
    {
        match self {
            YamlValue::Null => YamlValue::Null,
            YamlValue::Bool(b) => YamlValue::Bool(*b),
            YamlValue::Number(n) => YamlValue::Number(n.duplicate()),
            YamlValue::String(s) => YamlValue::String(s.clone()),
            YamlValue::Sequence(v) => {
                let mut out: Vec<YamlValue> = Vec::new();
                let mut i: usize = 0;
                while i < v.len()
                    invariant
                        i <= v@.len(),
                        *self == YamlValue::Sequence(*v),
                        out@.len() == i,
                        forall|j: int| 0 <= j < i ==> #[trigger] out@[j].model() == v@[j].model(),
                    decreases v@.len() - i,
                {
                    proof {
                        assert(decreases_to!(*self => self->Sequence_0));
                        assert(decreases_to!(*v => v@[i as int]));
                    }
                    out.push(v[i].duplicate());
                    i = i + 1;
                }
                let ghost o = out@;
                let r = YamlValue::Sequence(out);
                proof {
                    lemma_seq_model(o);
                    lemma_seq_model(v@);
                    assert(seq_model(o) =~= seq_model(v@));
                }
                r
            },
            YamlValue::Mapping(v) => {
                let mut out: Vec<(YamlValue, YamlValue)> = Vec::new();
                let mut i: usize = 0;
                while i < v.len()
                    invariant
                        i <= v@.len(),
                        *self == YamlValue::Mapping(*v),
                        out@.len() == i,
                        forall|j: int| 0 <= j < i ==> #[trigger] out@[j].0.model() == v@[j].0.model()
                            && out@[j].1.model() == v@[j].1.model(),
                    decreases v@.len() - i,
                {
                    proof {
                        assert(decreases_to!(*self => self->Mapping_0));
                        assert(decreases_to!(*v => v@[i as int]));
                        assert(decreases_to!(v@[i as int] => v@[i as int].0));
                        assert(decreases_to!(v@[i as int] => v@[i as int].1));
                    }
                    let k = v[i].0.duplicate();
                    let x = v[i].1.duplicate();
                    out.push((k, x));
                    i = i + 1;
                }
                let ghost o = out@;
                let r = YamlValue::Mapping(out);
                proof {
                    lemma_pairs_model(o);
                    lemma_pairs_model(v@);
                    assert(pairs_model(o) =~= pairs_model(v@));
                }
                r
            },
            YamlValue::Tagged(t, b) => YamlValue::Tagged(t.clone(), Box::new(b.duplicate())),
        }
    }
}


/// A value with its tags taken off.
pub open spec fn untag(m: YamlModel) -> YamlModel
    decreases m,
{
    match m {
        YamlModel::Tagged(_, inner) => untag(*inner),
        _ => m,
    }
}

/// The text of a value, under any tags.
pub open spec fn model_str(m: YamlModel) -> Option<Seq<char>> {
    match untag(m) {
        YamlModel::String(s) => Some(s),
        _ => None,
    }
}

/// A value as a non-negative integer, under any tags.
pub open spec fn model_u64(m: YamlModel) -> Option<nat> {
    match untag(m) {
        YamlModel::Number(NumberModel::PosInt(n)) => Some(n),
        YamlModel::Number(NumberModel::NegInt(i)) => if i >= 0 { Some(i as nat) } else { None },
        _ => None,
    }
}

impl YamlValue {
    /// The value under any tags.
    pub fn untagged(&self) -> (r: &YamlValue)
        ensures
            r.model() == untag(self.model()),
        decreases self,
    {
        match self {
            YamlValue::Tagged(_, inner) => {
                proof {
                    assert(decreases_to!(*self => self->Tagged_1));
                }
                inner.untagged()
            },
            _ => self,
        }
    }

    /// The text of the value, if it is text (under any tags).
    pub fn as_str(&self) -> (r: Option<&String>)
        ensures
            match r {
                Some(s) => model_str(self.model()) == Some(s@),
                None => model_str(self.model()) is None,
            },
    {
        match self.untagged() {
            YamlValue::String(s) => Some(s),
            _ => None,
        }
    }

    /// The value as a non-negative integer, if it is one (under any tags).
    pub fn as_u64(&self) -> (r: Option<u64>)
        ensures
            match r {
                Some(n) => model_u64(self.model()) == Some(n as nat),
                None => model_u64(self.model()) is None,
            },
    {
        match self.untagged() {
            YamlValue::Number(YamlNumber::PosInt(n)) => Some(*n),
            YamlValue::Number(YamlNumber::NegInt(i)) => if *i >= 0 { Some(*i as u64) } else { None },
            _ => None,
        }
    }
}


/// The items of a sequence, under any tags.
pub open spec fn model_seq(m: YamlModel) -> Option<Seq<YamlModel>> {
    match untag(m) {
        YamlModel::Sequence(s) => Some(s),
        _ => None,
    }
}

/// The pairs of a mapping, under any tags.
pub open spec fn model_map(m: YamlModel) -> Option<Seq<(YamlModel, YamlModel)>> {
    match untag(m) {
        YamlModel::Mapping(ps) => Some(ps),
        _ => None,
    }
}

impl YamlValue {
    /// The items, if the value is a sequence (under any tags).
    pub fn as_sequence(&self) -> (r: Option<&Vec<YamlValue>>)
        ensures
            match r {
                Some(v) => model_seq(self.model()) == Some(seq_model(v@)),
                None => model_seq(self.model()) is None,
            },
    {
        match self.untagged() {
            YamlValue::Sequence(v) => Some(v),
            _ => None,
        }
    }

    /// The pairs, if the value is a mapping (under any tags).
    pub fn as_mapping(&self) -> (r: Option<&Vec<(YamlValue, YamlValue)>>)
        ensures
            match r {
                Some(v) => model_map(self.model()) == Some(pairs_model(v@)),
                None => model_map(self.model()) is None,
            },
    {
        match self.untagged() {
            YamlValue::Mapping(v) => Some(v),
            _ => None,
        }
    }
}

} // verus!
