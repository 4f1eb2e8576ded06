//! The value model shared by both formats: a leaf is a number lexeme or a
//! piece of text; an attribute inside a nested GML block is a scalar or a
//! homogeneous list of scalars; a nested block itself is a dict, an ordered
//! list of named entries. Number lexemes are carried verbatim, so converting
//! never reformats a number.

use vstd::prelude::*;
use crate::numeric::is_json_num;

verus! {

/// A leaf value in its lexical form.
#[derive(Debug, Clone, PartialEq)]
pub enum Scalar {
    /// A number, kept as its lexeme.
    Num(String),
    /// Text, kept unquoted and unescaped.
    Txt(String),
}

/// Mathematical image of [`Scalar`].
#[verifier::ext_equal]
pub ghost enum ScalarV {
    Num(Seq<char>),
    Txt(Seq<char>),
}

impl View for Scalar {
    type V = ScalarV;

    open spec fn view(&self) -> ScalarV {
        match self {
            Scalar::Num(s) => ScalarV::Num(s@),
            Scalar::Txt(s) => ScalarV::Txt(s@),
        }
    }
}

impl DeepView for Scalar {
    type V = ScalarV;

    open spec fn deep_view(&self) -> ScalarV {
        self.view()
    }
}

/// The value under one dict entry: a single scalar, or the list that a
/// repeated entry name builds up.
#[derive(Debug, Clone, PartialEq)]
pub enum DictVal {
    One(Scalar),
    Many(Vec<Scalar>),
}

/// Mathematical image of [`DictVal`].
#[verifier::ext_equal]
pub ghost enum DictValV {
    One(ScalarV),
    Many(Seq<ScalarV>),
}

impl View for DictVal {
    type V = DictValV;

    open spec fn view(&self) -> DictValV {
        match self {
            DictVal::One(s) => DictValV::One(s@),
            DictVal::Many(v) => DictValV::Many(v.deep_view()),
        }
    }
}

impl DeepView for DictVal {
    type V = DictValV;

    open spec fn deep_view(&self) -> DictValV {
        self.view()
    }
}

/// A decoded dict/list value: an ordered dict of named entries, a flat list
/// of scalars, or a bare scalar.
#[derive(Debug, Clone, PartialEq)]
pub enum JsonTree {
    Obj(Vec<(String, DictVal)>),
    Arr(Vec<Scalar>),
    Prim(Scalar),
}

/// Mathematical image of [`JsonTree`].
#[verifier::ext_equal]
pub ghost enum JsonTreeV {
    Obj(Seq<(Seq<char>, DictValV)>),
    Arr(Seq<ScalarV>),
    Prim(ScalarV),
}

impl View for JsonTree {
    type V = JsonTreeV;

    open spec fn view(&self) -> JsonTreeV {
        match self {
            JsonTree::Obj(d) => JsonTreeV::Obj(d.deep_view()),
            JsonTree::Arr(v) => JsonTreeV::Arr(v.deep_view()),
            JsonTree::Prim(s) => JsonTreeV::Prim(s@),
        }
    }
}

impl DeepView for JsonTree {
    type V = JsonTreeV;

    open spec fn deep_view(&self) -> JsonTreeV {
        self.view()
    }
}

/// A number lexeme must match the dict/list number grammar; text is free.
pub open spec fn scalar_wf(v: ScalarV) -> bool {
    match v {
        ScalarV::Num(n) => is_json_num(n),
        ScalarV::Txt(_) => true,
    }
}

pub open spec fn scalars_wf(vs: Seq<ScalarV>) -> bool {
    forall|i: int| 0 <= i < vs.len() ==> scalar_wf(#[trigger] vs[i])
}

pub open spec fn dictval_wf(v: DictValV) -> bool {
    match v {
        DictValV::One(s) => scalar_wf(s),
        DictValV::Many(vs) => scalars_wf(vs),
    }
}

/// Every value in the dict is well formed.
pub open spec fn dict_wf(d: Seq<(Seq<char>, DictValV)>) -> bool {
    forall|i: int| 0 <= i < d.len() ==> dictval_wf(#[trigger] d[i].1)
}

} // verus!
