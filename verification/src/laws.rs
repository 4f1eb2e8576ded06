//! Laws the conversion passes obey, stated and proved over the same spec
//! functions the executable contracts use.

use vstd::prelude::*;
use crate::errors::ConvError;
use crate::gml_writer::lines_graph_start;
use crate::graphml_writer::ev_keys;
use crate::graphml_writer::lemma_ev_keys_index;
use crate::graphml_writer::spec_strip_quotes;
use crate::graphml_to_gml::ForTypes;
use crate::graphml_to_gml::GraphmlToGmlStateV;
use crate::graphml_to_gml::KeyV;
use crate::graphml_to_gml::ValueTypes;
use crate::graphml_to_gml::ml_event;
use crate::graphml_to_gml::ml_text;
use crate::graphml_to_gml::spec_parse_key;
use crate::numeric::digits_of;
use crate::numeric::digits_val;
use crate::numeric::is_digit_char;
use crate::numeric::lemma_dec_digits_val;
use crate::numeric::lemma_digits_of_concat;
use crate::numeric::lemma_digits_of_identity;
use crate::numeric::spec_dec_digits;
use crate::numeric::spec_digits_value;
use crate::registry::GraphmlAttributeTypes;
use crate::registry::GraphmlElems;
use crate::registry::KeyAttrV;
use crate::registry::KeyValV;
use crate::registry::reg_ids_sequential;
use crate::registry::spec_get_or_add;
use crate::registry::spec_infer_type;
use crate::registry::spec_key_id;
use crate::registry::spec_update_element;
use crate::strutil::lemma_pair_find_idx;
use crate::strutil::pair_find_idx;
use crate::xml::XmlEventV;
use crate::xml::spec_get_attribute;

verus! {

/// A key not yet present is found at the end after being pushed.
proof fn lemma_pair_find_push_fresh<V>(s: Seq<(Seq<char>, V)>, k: Seq<char>, v: V)
    requires
        pair_find_idx(s, k) < 0,
    ensures
        pair_find_idx(s.push((k, v)), k) == s.len(),
{
    lemma_pair_find_idx(s, k);
    let s2 = s.push((k, v));
    lemma_pair_find_idx(s2, k);
    let j = pair_find_idx(s2, k);
    assert(s2[s.len() as int].0 == k);
    if j < 0 {
        assert(s2[s.len() as int].0 != k);
    }
    if 0 <= j < s.len() {
        assert(s2[j] == s[j]);
        assert(s[j].0 != k);
    }
}

/// A repeated attribute name inside one element collapses into a single
/// entry holding both values, and the repetition widens the key's registry
/// type to string: starting from an element map that does not yet hold the
/// key's id, recording two values under the same name leaves exactly one
/// more entry, holding the two values in order, and the registry's type for
/// that key is string.
pub proof fn lemma_repeated_name_builds_list(
    m: Seq<(Seq<char>, Seq<Seq<char>>)>,
    reg: Seq<(KeyAttrV, KeyValV)>,
    v1: Seq<char>,
    v2: Seq<char>,
    element: GraphmlElems,
    name: Seq<char>,
)
    requires
        pair_find_idx(m, spec_get_or_add(reg, KeyAttrV { name, elem: element }, v1).0) < 0,
    ensures
        ({
            let a = KeyAttrV { name, elem: element };
            let id = spec_get_or_add(reg, a, v1).0;
            let p1 = spec_update_element(m, reg, v1, element, name);
            let p2 = spec_update_element(p1.0, p1.1, v2, element, name);
            p2.0 == m.push((id, seq![v1, v2])) && pair_find_idx(p2.1, a) >= 0 && p2.1[pair_find_idx(
                p2.1,
                a,
            )].1.ty == GraphmlAttributeTypes::Str
        }),
{
    let a = KeyAttrV { name, elem: element };
    let id = spec_get_or_add(reg, a, v1).0;
    let reg1 = spec_get_or_add(reg, a, v1).1;
    lemma_pair_find_idx(reg, a);
    // after the first lookup-or-insert the key is present, under `id`
    if pair_find_idx(reg, a) < 0 {
        lemma_key_find_push_fresh(reg, a, KeyValV { id, ty: spec_infer_type(v1) });
    }
    lemma_pair_find_idx(reg1, a);
    let j1 = pair_find_idx(reg1, a);
    assert(j1 >= 0 && reg1[j1].1.id == id);
    // the first update pushes a fresh entry
    let p1 = spec_update_element(m, reg, v1, element, name);
    assert(p1.0 == m.push((id, seq![v1])) && p1.1 == reg1);
    // the second lookup finds the same key and id, and the second update
    // finds the pushed entry and appends to it
    let p2 = spec_update_element(p1.0, p1.1, v2, element, name);
    assert(spec_get_or_add(reg1, a, v2) == (id, reg1));
    lemma_pair_find_push_fresh(m, id, seq![v1]);
    let k = pair_find_idx(m.push((id, seq![v1])), id);
    assert(k == m.len());
    assert(seq![v1].push(v2) =~= seq![v1, v2]);
    assert(p2.0 =~= m.push((id, seq![v1, v2])));
    // and widens the key's type to string
    let reg2 = crate::registry::reg_widen(reg1, a);
    assert(p2.1 == reg2);
    assert(reg2 == reg1.update(
        j1,
        (reg1[j1].0, KeyValV { id: reg1[j1].1.id, ty: GraphmlAttributeTypes::Str }),
    ));
    lemma_pair_find_idx(reg2, a);
    let w = pair_find_idx(reg2, a);
    assert(reg2[j1].0 == a);
    if w < 0 {
        assert(reg2[j1].0 != a);
    }
    if 0 <= w < j1 {
        assert(reg2[w] == reg1[w]);
        assert(reg1[w].0 != a);
    }
    if j1 < w {
        assert(reg2[j1].0 != a);
    }
    assert(w == j1);
}

/// As [`lemma_pair_find_push_fresh`], for the key registry, whose keys are
/// not sequences.
proof fn lemma_key_find_push_fresh(s: Seq<(KeyAttrV, KeyValV)>, k: KeyAttrV, v: KeyValV)
    requires
        pair_find_idx(s, k) < 0,
    ensures
        pair_find_idx(s.push((k, v)), k) == s.len(),
{
    lemma_pair_find_idx(s, k);
    let s2 = s.push((k, v));
    lemma_pair_find_idx(s2, k);
    let j = pair_find_idx(s2, k);
    assert(s2[s.len() as int].0 == k);
    if j < 0 {
        assert(s2[s.len() as int].0 != k);
    }
    if 0 <= j < s.len() {
        assert(s2[j] == s[j]);
        assert(s[j].0 != k);
    }
}

/// The first value seen under a key fixes the key's inferred type: adding a
/// key that is not yet registered records `spec_infer_type` of that value.
pub proof fn lemma_first_value_fixes_type(
    reg: Seq<(KeyAttrV, KeyValV)>,
    a: KeyAttrV,
    v: Seq<char>,
)
    requires
        pair_find_idx(reg, a) < 0,
    ensures
        ({
            let reg1 = spec_get_or_add(reg, a, v).1;
            reg1.len() == reg.len() + 1 && reg1.last() == (
                a,
                KeyValV { id: spec_key_id(reg.len() as int), ty: spec_infer_type(v) },
            )
        }),
{
}

/// A `<data>` element with empty text, or with the literal two-character
/// empty quote token, contributes no attribute at all: the state is
/// unchanged.
pub proof fn lemma_empty_data_value_elided(st: GraphmlToGmlStateV, pos: usize)
    ensures
        ml_text(st, Seq::<char>::empty(), pos) == Result::<GraphmlToGmlStateV, ConvError>::Ok(st),
        ml_text(st, "\"\""@, pos) == Result::<GraphmlToGmlStateV, ConvError>::Ok(st),
{
}

/// A `<graph>` start tag without an `edgedefault` attribute leaves the
/// directedness unknown, and the GML writer renders unknown directedness as
/// `directed 0`.
pub proof fn lemma_directedness_default(
    st: GraphmlToGmlStateV,
    attrs: Seq<(Seq<char>, Seq<char>)>,
    pos: usize,
    data: Seq<(Seq<char>, Seq<char>)>,
)
    requires
        spec_get_attribute(attrs, "edgedefault"@) is None,
    ensures
        ml_event(st, XmlEventV::Start { name: "graph"@, attrs }, pos) == Result::<
            GraphmlToGmlStateV,
            ConvError,
        >::Ok(GraphmlToGmlStateV { graph_directed: Option::None, ..st }),
        lines_graph_start(Option::None, data)[1] == "  directed 0"@,
{
    reveal_strlit("graph");
    reveal_strlit("graphml");
    assert(!("graph"@ =~= "graphml"@));
    assert(lines_graph_start(Option::None, data)[1] == "  directed 0"@);
}

/// A node id survives the round trip: the GML-to-GraphML pass writes id `n`
/// as `n<digits>`, and the GraphML-to-GML pass reads an id back as the
/// number its digits carry; reading the written form gives `n` again.
pub proof fn lemma_node_id_round_trip(n: int)
    requires
        0 <= n <= u32::MAX as int,
    ensures
        spec_digits_value(seq!['n'] + spec_dec_digits(n)) == Option::Some(n as u32),
{
    lemma_dec_digits_val(n);
    let ds = spec_dec_digits(n);
    assert(!is_digit_char('n'));
    assert(seq!['n'].drop_last() =~= Seq::<char>::empty());
    assert(digits_of(Seq::<char>::empty()) =~= Seq::<char>::empty());
    assert(digits_of(seq!['n']) =~= Seq::<char>::empty());
    lemma_digits_of_concat(seq!['n'], ds);
    lemma_digits_of_identity(ds);
    assert(digits_of(seq!['n'] + ds) =~= ds);
}

/// The quote conventions of the two directions are symmetric: stripping the
/// surrounding quotes of a quoted value on the way into GraphML and putting
/// them back on the way out restores the value exactly.
pub proof fn lemma_quote_strip_restore(v: Seq<char>)
    requires
        v.len() >= 2,
        v.first() == '"',
        v.last() == '"',
    ensures
        seq!['"'] + spec_strip_quotes(v) + seq!['"'] == v,
{
    assert(seq!['"'] + v.subrange(1, v.len() - 1) + seq!['"'] =~= v);
}

/// How a key type written as `attr.type` text reads back.
pub open spec fn read_type_of(t: GraphmlAttributeTypes) -> ValueTypes {
    match t {
        GraphmlAttributeTypes::Int => ValueTypes::Int,
        GraphmlAttributeTypes::Float => ValueTypes::Float,
        GraphmlAttributeTypes::Str => ValueTypes::Str,
    }
}

/// How an element kind written as `for` text reads back.
pub open spec fn read_kind_of(e: GraphmlElems) -> ForTypes {
    match e {
        GraphmlElems::Node => ForTypes::Node,
        GraphmlElems::Edge => ForTypes::Edge,
        GraphmlElems::Graph => ForTypes::Graph,
    }
}

/// A `<key>` declaration written by one direction is read back by the
/// other with the same id, attribute name, type and element kind.
pub proof fn lemma_key_declaration_round_trip(a: KeyAttrV, kv: KeyValV)
    ensures
        spec_parse_key(
            seq![
                ("id"@, kv.id),
                ("for"@, a.elem.spec_value()),
                ("attr.name"@, a.name),
                ("attr.type"@, kv.ty.spec_value()),
            ],
        ) == Option::Some(
            (kv.id, KeyV { name: a.name, ty: read_type_of(kv.ty), for_type: read_kind_of(a.elem) }),
        ),
{
    reveal_strlit("id");
    reveal_strlit("for");
    reveal_strlit("attr.name");
    reveal_strlit("attr.type");
    reveal_strlit("node");
    reveal_strlit("edge");
    reveal_strlit("graph");
    reveal_strlit("int");
    reveal_strlit("float");
    reveal_strlit("string");
    reveal_strlit("double");
    let attrs = seq![
        ("id"@, kv.id),
        ("for"@, a.elem.spec_value()),
        ("attr.name"@, a.name),
        ("attr.type"@, kv.ty.spec_value()),
    ];
    assert(attrs.len() == 4);
    assert(attrs[0] == ("id"@, kv.id));
    assert(attrs[1] == ("for"@, a.elem.spec_value()));
    assert(attrs[2] == ("attr.name"@, a.name));
    assert(attrs[3] == ("attr.type"@, kv.ty.spec_value()));
    assert(!("id"@ =~= "attr.name"@));
    assert(!("for"@ =~= "attr.name"@));
    assert(!("for"@ =~= "id"@));
    assert(!("for"@ =~= "attr.type"@));
    assert("attr.type"@[5] != "attr.name"@[5]);
    assert(!("attr.type"@ =~= "attr.name"@));
    assert(!("attr.type"@ =~= "id"@));
    match a.elem {
        GraphmlElems::Node => {
            assert("node"@[0] != "edge"@[0]);
            assert(!("node"@ =~= "edge"@));
        },
        GraphmlElems::Edge => {},
        GraphmlElems::Graph => {
            assert(!("graph"@ =~= "edge"@));
            assert(!("graph"@ =~= "node"@));
        },
    }
    match kv.ty {
        GraphmlAttributeTypes::Int => {
            assert(!("int"@ =~= "string"@));
            assert(!("int"@ =~= "double"@));
            assert(!("int"@ =~= "float"@));
        },
        GraphmlAttributeTypes::Float => {
            assert(!("float"@ =~= "string"@));
            assert(!("float"@ =~= "double"@));
        },
        GraphmlAttributeTypes::Str => {},
    }
    let k0 = KeyV { name: Seq::empty(), ty: ValueTypes::Str, for_type: ForTypes::Edge };
    let k1 = KeyV { for_type: read_kind_of(a.elem), ..k0 };
    let k2 = KeyV { name: a.name, ..k1 };
    let k3 = KeyV { ty: read_type_of(kv.ty), ..k2 };
    assert(crate::graphml_to_gml::key_fold(attrs, 0, Seq::empty(), k0)
        == crate::graphml_to_gml::key_fold(attrs, 1, kv.id, k0));
    assert(crate::graphml_to_gml::key_fold(attrs, 1, kv.id, k0)
        == crate::graphml_to_gml::key_fold(attrs, 2, kv.id, k1));
    assert(crate::graphml_to_gml::key_fold(attrs, 2, kv.id, k1)
        == crate::graphml_to_gml::key_fold(attrs, 3, kv.id, k2));
    assert(crate::graphml_to_gml::key_fold(attrs, 3, kv.id, k2)
        == crate::graphml_to_gml::key_fold(attrs, 4, kv.id, k3));
    assert(crate::graphml_to_gml::key_fold(attrs, 4, kv.id, k3) == Option::Some((kv.id, k3)));
    assert(k3 == KeyV { name: a.name, ty: read_type_of(kv.ty), for_type: read_kind_of(a.elem) });
}

/// With sequentially assigned ids the `<key>` declarations come out in
/// ascending numeric-id order: the `k`-th emitted key event carries id
/// `d<k>`, whose numeral reads back as `k`.
pub proof fn lemma_key_declarations_in_id_order(reg: Seq<(KeyAttrV, KeyValV)>)
    requires
        reg_ids_sequential(reg),
    ensures
        ev_keys(reg).len() == reg.len(),
        forall|k: int|
            0 <= k < reg.len() ==> ((#[trigger] ev_keys(reg)[k]) matches XmlEventV::Empty {
                name,
                attrs,
            } && attrs[0] == ("id"@, spec_key_id(k))),
        forall|k: int|
            0 <= k < reg.len() ==> digits_val(#[trigger] spec_key_id(k).drop_first()) == k,
{
    lemma_ev_keys_index(reg);
    assert forall|k: int|
        0 <= k < reg.len() implies digits_val(#[trigger] spec_key_id(k).drop_first()) == k by {
        lemma_dec_digits_val(k);
        assert(spec_key_id(k).drop_first() =~= spec_dec_digits(k));
    }
}

} // verus!
