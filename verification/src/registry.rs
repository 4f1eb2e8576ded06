//! The attribute-key registry used when emitting GraphML. Each (attribute
//! name, owner kind) pair gets a stable id `d<N>` in first-seen order and a
//! scalar type inferred from the first value. When a second value arrives
//! under the same key within one element, the key's type widens to string,
//! because the values will be serialized together as one encoded list.

use vstd::prelude::*;
use crate::numeric::is_u32_token;
use crate::numeric::is_float_token;
use crate::numeric::spec_dec_digits;
use crate::numeric::u64_to_string;
use crate::numeric::parse_u32_token;
use crate::numeric::is_float;
use crate::strutil::str_eq;
use crate::strutil::pair_find_idx;
use crate::strutil::lemma_pair_find_idx;

verus! {

/// The kind of element a key belongs to.
#[derive(Debug, Clone, Copy, PartialEq, Eq, Hash, Structural)]
pub enum GraphmlElems {
    Node,
    Edge,
    Graph,
}

impl GraphmlElems {
    pub open spec fn spec_value(self) -> Seq<char> {
        match self {
            GraphmlElems::Node => "node"@,
            GraphmlElems::Edge => "edge"@,
            GraphmlElems::Graph => "graph"@,
        }
    }

    /// The `for` attribute text of a `<key>` element.
    pub fn value(&self) -> (r: &'static str)
        ensures
            r@ == self.spec_value(),
    {
        match *self {
            GraphmlElems::Node => "node",
            GraphmlElems::Edge => "edge",
            GraphmlElems::Graph => "graph",
        }
    }
}

/// The scalar type recorded for a key.
#[derive(Debug, Clone, Copy, PartialEq, Eq, Hash, Structural)]
pub enum GraphmlAttributeTypes {
    Int,
    Float,
    Str,
}

impl GraphmlAttributeTypes {
    pub open spec fn spec_value(self) -> Seq<char> {
        match self {
            GraphmlAttributeTypes::Int => "int"@,
            GraphmlAttributeTypes::Float => "float"@,
            GraphmlAttributeTypes::Str => "string"@,
        }
    }

    /// The `attr.type` attribute text of a `<key>` element.
    pub fn value(&self) -> (r: &'static str)
        ensures
            r@ == self.spec_value(),
    {
        match *self {
            GraphmlAttributeTypes::Int => "int",
            GraphmlAttributeTypes::Float => "float",
            GraphmlAttributeTypes::Str => "string",
        }
    }
}

/// What a key is looked up by on the write path: the attribute name and the
/// kind of element that owns it.
#[derive(Debug)]
pub struct KeyAttributes {
    pub attr_name: String,
    pub for_elem: GraphmlElems,
}

/// Mathematical image of [`KeyAttributes`].
#[verifier::ext_equal]
pub ghost struct KeyAttrV {
    pub name: Seq<char>,
    pub elem: GraphmlElems,
}

impl View for KeyAttributes {
    type V = KeyAttrV;

    open spec fn view(&self) -> KeyAttrV {
        KeyAttrV { name: self.attr_name@, elem: self.for_elem }
    }
}

impl DeepView for KeyAttributes {
    type V = KeyAttrV;

    open spec fn deep_view(&self) -> KeyAttrV {
        self.view()
    }
}

/// What the registry stores for a key: its id and its inferred type.
#[derive(Debug)]
pub struct KeyValues {
    pub id: String,
    pub attr_type: GraphmlAttributeTypes,
}

/// Mathematical image of [`KeyValues`].
#[verifier::ext_equal]
pub ghost struct KeyValV {
    pub id: Seq<char>,
    pub ty: GraphmlAttributeTypes,
}

impl View for KeyValues {
    type V = KeyValV;

    open spec fn view(&self) -> KeyValV {
        KeyValV { id: self.id@, ty: self.attr_type }
    }
}

impl DeepView for KeyValues {
    type V = KeyValV;

    open spec fn deep_view(&self) -> KeyValV {
        self.view()
    }
}

/// The registry as a value: entries in first-seen order.
pub type KeyRegistry = Vec<(KeyAttributes, KeyValues)>;

/// The id assigned to the `n`-th key: `d<n>`.
pub open spec fn spec_key_id(n: int) -> Seq<char> {
    seq!['d'] + spec_dec_digits(n)
}

/// Render the id of the `n`-th key.
pub fn make_key_id(n: u64) -> (r: String)
    ensures
        r@ == spec_key_id(n as int),
{
    let mut s = String::new();
    s.append("d");
    let digits = u64_to_string(n);
    s.append(digits.as_str());
    proof {
        reveal_strlit("d");
        assert(s@ =~= spec_key_id(n as int));
    }
    s
}

/// The type inferred from the first value seen under a key: a quoted value
/// is a string; otherwise a value that parses as a `u32` is an int, one that
/// parses as a float is a float, and anything else is a string.
pub open spec fn spec_infer_type(v: Seq<char>) -> GraphmlAttributeTypes {
    if v.len() > 0 && v.first() == '"' && v.last() == '"' {
        GraphmlAttributeTypes::Str
    } else if is_u32_token(v) {
        GraphmlAttributeTypes::Int
    } else if is_float_token(v) {
        GraphmlAttributeTypes::Float
    } else {
        GraphmlAttributeTypes::Str
    }
}

/// Infer the scalar type of an attribute value.
pub fn infer_attr_type(value: &str) -> (r: GraphmlAttributeTypes)
    ensures
        r == spec_infer_type(value@),
{
    let len = value.unicode_len();
    if len > 0 && value.get_char(0) == '"' && value.get_char(len - 1) == '"' {
        return GraphmlAttributeTypes::Str;
    }
    if parse_u32_token(value).is_some() {
        return GraphmlAttributeTypes::Int;
    }
    if is_float(value) {
        return GraphmlAttributeTypes::Float;
    }
    GraphmlAttributeTypes::Str
}

/// What one registry lookup-or-insert does: the id handed back, and the
/// registry after the call.
pub open spec fn spec_get_or_add(
    reg: Seq<(KeyAttrV, KeyValV)>,
    a: KeyAttrV,
    v: Seq<char>,
) -> (Seq<char>, Seq<(KeyAttrV, KeyValV)>) {
    let j = pair_find_idx(reg, a);
    if j >= 0 {
        (reg[j].1.id, reg)
    } else {
        let kv = KeyValV { id: spec_key_id(reg.len() as int), ty: spec_infer_type(v) };
        (spec_key_id(reg.len() as int), reg.push((a, kv)))
    }
}

/// Look up the id for `key_attr`; on a miss, allocate the next sequential id
/// and record the type inferred from `value`.
pub fn get_or_add_key_id(keys: &mut KeyRegistry, key_attr: &KeyAttributes, value: &str) -> (r:
    String)
    ensures
        ({
            let (id, reg) = spec_get_or_add(old(keys).deep_view(), key_attr.deep_view(), value@);
            r@ == id && final(keys).deep_view() == reg
        }),
{
    let n = keys.len();
    let ghost regv = keys.deep_view();
    proof {
        lemma_pair_find_idx(regv, key_attr.deep_view());
    }
    let mut i: usize = 0;
    while i < n
        invariant
            0 <= i <= n,
            n == keys@.len(),
            regv == keys.deep_view(),
            forall|j: int| 0 <= j < i ==> (#[trigger] regv[j]).0 != key_attr.deep_view(),
        decreases n - i,
    {
        let hit = str_eq(keys[i].0.attr_name.as_str(), key_attr.attr_name.as_str()) && keys[i].0.for_elem
            == key_attr.for_elem;
        if hit {
            proof {
                assert(regv[i as int].0 == key_attr.deep_view());
                assert(pair_find_idx(regv, key_attr.deep_view()) == i as int);
            }
            return keys[i].1.id.clone();
        }
        i = i + 1;
    }
    proof {
        assert(pair_find_idx(regv, key_attr.deep_view()) < 0);
    }
    let id = make_key_id(n as u64);
    let ty = infer_attr_type(value);
    let new_attr = KeyAttributes {
        attr_name: key_attr.attr_name.clone(),
        for_elem: key_attr.for_elem,
    };
    let id_copy = id.clone();
    keys.push((new_attr, KeyValues { id: id_copy, attr_type: ty }));
    proof {
        assert(keys.deep_view() =~= regv.push(
            (key_attr.deep_view(), KeyValV { id: id@, ty: spec_infer_type(value@) }),
        ));
    }
    id
}

/// The registry with the type of the key `a` widened to string.
pub open spec fn reg_widen(reg: Seq<(KeyAttrV, KeyValV)>, a: KeyAttrV) -> Seq<(KeyAttrV, KeyValV)> {
    let j = pair_find_idx(reg, a);
    if j < 0 {
        reg
    } else {
        reg.update(j, (reg[j].0, KeyValV { id: reg[j].1.id, ty: GraphmlAttributeTypes::Str }))
    }
}

/// What recording one more value under a key does to an element's attribute
/// map and to the registry: a first value opens a new list under the key's
/// id; a repeated one appends to it and widens the key's type to string.
pub open spec fn spec_update_element(
    m: Seq<(Seq<char>, Seq<Seq<char>>)>,
    reg: Seq<(KeyAttrV, KeyValV)>,
    v: Seq<char>,
    element: GraphmlElems,
    name: Seq<char>,
) -> (Seq<(Seq<char>, Seq<Seq<char>>)>, Seq<(KeyAttrV, KeyValV)>) {
    let a = KeyAttrV { name: name, elem: element };
    let (id, reg1) = spec_get_or_add(reg, a, v);
    let j = pair_find_idx(m, id);
    if j < 0 {
        (m.push((id, seq![v])), reg1)
    } else {
        let reg2 = if m[j].1.len() >= 1 {
            reg_widen(reg1, a)
        } else {
            reg1
        };
        (m.update(j, (m[j].0, m[j].1.push(v))), reg2)
    }
}

/// Record one attribute value on an element, allocating or widening its
/// registry key as needed.
pub fn update_element(
    elem_map: &mut Vec<(String, Vec<String>)>,
    keys: &mut KeyRegistry,
    value: &str,
    element: GraphmlElems,
    name: &str,
)
    ensures
        ({
            let (m2, reg2) = spec_update_element(
                old(elem_map).deep_view(),
                old(keys).deep_view(),
                value@,
                element,
                name@,
            );
            final(elem_map).deep_view() == m2 && final(keys).deep_view() == reg2
        }),
{
    let key_attr = KeyAttributes { attr_name: name.to_owned(), for_elem: element };
    let ghost a = key_attr.deep_view();
    let ghost m0 = elem_map.deep_view();
    let key_id = get_or_add_key_id(keys, &key_attr, value);
    let ghost reg1 = keys.deep_view();
    proof {
        lemma_pair_find_idx(m0, key_id@);
    }
    let n = elem_map.len();
    let mut i: usize = 0;
    while i < n
        invariant
            0 <= i <= n,
            n == elem_map@.len(),
            m0 == elem_map.deep_view(),
            reg1 == keys.deep_view(),
            forall|j: int| 0 <= j < i ==> (#[trigger] m0[j]).0 != key_id@,
        decreases n - i,
    {
        if str_eq(elem_map[i].0.as_str(), key_id.as_str()) {
            proof {
                assert(m0[i as int].0 == key_id@);
                assert(pair_find_idx(m0, key_id@) == i as int);
            }
            let mut pair = elem_map.remove(i);
            let widen = pair.1.len() >= 1;
            pair.1.push(value.to_owned());
            elem_map.insert(i, pair);
            proof {
                assert(elem_map.deep_view() =~~= m0.update(
                    i as int,
                    (m0[i as int].0, m0[i as int].1.push(value@)),
                ));
            }
            if widen {
                widen_key(keys, &key_attr);
            }
            return ;
        }
        i = i + 1;
    }
    proof {
        assert(pair_find_idx(m0, key_id@) < 0);
    }
    let mut vals: Vec<String> = Vec::new();
    vals.push(value.to_owned());
    elem_map.push((key_id, vals));
    proof {
        assert(elem_map.deep_view() =~~= m0.push((spec_get_or_add(old(keys).deep_view(), a, value@).0, seq![value@])));
    }
}

/// Set the type of the key `a` to string.
fn widen_key(keys: &mut KeyRegistry, key_attr: &KeyAttributes)
    ensures
        final(keys).deep_view() == reg_widen(old(keys).deep_view(), key_attr.deep_view()),
{
    let ghost regv = keys.deep_view();
    proof {
        lemma_pair_find_idx(regv, key_attr.deep_view());
    }
    let n = keys.len();
    let mut i: usize = 0;
    while i < n
        invariant
            0 <= i <= n,
            n == keys@.len(),
            regv == keys.deep_view(),
            forall|j: int| 0 <= j < i ==> (#[trigger] regv[j]).0 != key_attr.deep_view(),
        decreases n - i,
    {
        let hit = str_eq(keys[i].0.attr_name.as_str(), key_attr.attr_name.as_str()) && keys[i].0.for_elem
            == key_attr.for_elem;
        if hit {
            proof {
                assert(regv[i as int].0 == key_attr.deep_view());
                assert(pair_find_idx(regv, key_attr.deep_view()) == i as int);
            }
            let mut pair = keys.remove(i);
            pair.1.attr_type = GraphmlAttributeTypes::Str;
            keys.insert(i, pair);
            proof {
                assert(keys.deep_view() =~= reg_widen(regv, key_attr.deep_view()));
            }
            return ;
        }
        i = i + 1;
    }
    proof {
        assert(pair_find_idx(regv, key_attr.deep_view()) < 0);
        assert(keys.deep_view() =~= reg_widen(regv, key_attr.deep_view()));
    }
}

/// Every id in the registry is sequential: the `i`-th entry carries `d<i>`.
pub open spec fn reg_ids_sequential(reg: Seq<(KeyAttrV, KeyValV)>) -> bool {
    forall|i: int| 0 <= i < reg.len() ==> (#[trigger] reg[i]).1.id == spec_key_id(i)
}

/// A lookup-or-insert keeps the ids sequential.
pub proof fn lemma_get_or_add_sequential(reg: Seq<(KeyAttrV, KeyValV)>, a: KeyAttrV, v: Seq<char>)
    requires
        reg_ids_sequential(reg),
    ensures
        reg_ids_sequential(spec_get_or_add(reg, a, v).1),
{
}

/// Widening a key's type keeps the ids sequential.
pub proof fn lemma_widen_sequential(reg: Seq<(KeyAttrV, KeyValV)>, a: KeyAttrV)
    requires
        reg_ids_sequential(reg),
    ensures
        reg_ids_sequential(reg_widen(reg, a)),
{
    lemma_pair_find_idx(reg, a);
}

/// Recording a value on an element keeps the registry's ids sequential.
pub proof fn lemma_update_element_sequential(
    m: Seq<(Seq<char>, Seq<Seq<char>>)>,
    reg: Seq<(KeyAttrV, KeyValV)>,
    v: Seq<char>,
    element: GraphmlElems,
    name: Seq<char>,
)
    requires
        reg_ids_sequential(reg),
    ensures
        reg_ids_sequential(spec_update_element(m, reg, v, element, name).1),
{
    let a = KeyAttrV { name, elem: element };
    lemma_get_or_add_sequential(reg, a, v);
    lemma_widen_sequential(spec_get_or_add(reg, a, v).1, a);
}

} // verus!
