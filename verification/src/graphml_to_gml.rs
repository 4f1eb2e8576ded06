//! The GraphML parser and the GraphML-to-GML pass: a consumer of XML events
//! that rebuilds graph, node and edge records, resolves `<data>` values
//! through the key registry read from `<key>` declarations, and streams GML
//! lines out through the GML writer.
//!
//! A `<data>` element with empty text (or the literal two-character empty
//! quote token) contributes no attribute at all. A start tag outside the
//! closed vocabulary, a `<data>` key never declared, and a value a numeric
//! key cannot carry are each fatal, with the event's position.

use vstd::prelude::*;
use crate::errors::ConvError;
use crate::gml_writer::lines_edge;
use crate::gml_writer::lines_graph_start;
use crate::gml_writer::lines_node;
use crate::gml_writer::write_edge;
use crate::gml_writer::write_graph_end;
use crate::gml_writer::write_graph_start;
use crate::gml_writer::write_node;
use crate::numeric::digits_value;
use crate::numeric::int_token;
use crate::numeric::is_float_token;
use crate::numeric::is_float;
use crate::numeric::is_int_token;
use crate::numeric::spec_digits_value;
use crate::numeric::spec_strip_plus;
use crate::strutil::contains_char;
use crate::strutil::lemma_pair_find_idx;
use crate::strutil::pair_find_idx;
use crate::strutil::str_eq;
use crate::xml::XmlEvent;
use crate::xml::XmlEventV;
use crate::xml::get_attribute;
use crate::xml::spec_get_attribute;

verus! {

/// Which element the current `<data>` text belongs to.
#[derive(Debug, Clone, Copy, PartialEq, Eq, Hash, Structural)]
pub enum CurrentState {
    Graph,
    Node,
    Edge,
}

/// The scalar type a `<key>` declares.
#[derive(Debug, Clone, Copy, PartialEq, Eq, Hash, Structural)]
pub enum ValueTypes {
    Str,
    Double,
    Float,
    Int,
}

/// The element kind a `<key>` declares itself for.
#[derive(Debug, Clone, Copy, PartialEq, Eq, Hash, Structural)]
pub enum ForTypes {
    Edge,
    Node,
    Graph,
}

/// One declared key: the attribute name it stands for, its type, and the
/// element kind it belongs to.
#[derive(Debug)]
pub struct Key {
    pub attr_name: String,
    pub attr_type: ValueTypes,
    pub for_type: ForTypes,
}

/// Mathematical image of [`Key`].
#[verifier::ext_equal]
pub ghost struct KeyV {
    pub name: Seq<char>,
    pub ty: ValueTypes,
    pub for_type: ForTypes,
}

impl View for Key {
    type V = KeyV;

    open spec fn view(&self) -> KeyV {
        KeyV { name: self.attr_name@, ty: self.attr_type, for_type: self.for_type }
    }
}

impl DeepView for Key {
    type V = KeyV;

    open spec fn deep_view(&self) -> KeyV {
        self.view()
    }
}

/// Read a `<key>` element's attributes in order, later occurrences winning;
/// `None` on an unrecognized `attr.type` or `for` value.
pub open spec fn key_fold(
    attrs: Seq<(Seq<char>, Seq<char>)>,
    i: int,
    id: Seq<char>,
    k: KeyV,
) -> Option<(Seq<char>, KeyV)>
    decreases attrs.len() - i,
    when 0 <= i <= attrs.len()
{
    if i == attrs.len() {
        Option::Some((id, k))
    } else {
        let an = attrs[i].0;
        let av = attrs[i].1;
        if an == "attr.name"@ {
            key_fold(attrs, i + 1, id, KeyV { name: av, ..k })
        } else if an == "id"@ {
            key_fold(attrs, i + 1, av, k)
        } else if an == "attr.type"@ {
            if av == "string"@ {
                key_fold(attrs, i + 1, id, KeyV { ty: ValueTypes::Str, ..k })
            } else if av == "double"@ {
                key_fold(attrs, i + 1, id, KeyV { ty: ValueTypes::Double, ..k })
            } else if av == "float"@ {
                key_fold(attrs, i + 1, id, KeyV { ty: ValueTypes::Float, ..k })
            } else if av == "int"@ {
                key_fold(attrs, i + 1, id, KeyV { ty: ValueTypes::Int, ..k })
            } else {
                Option::None
            }
        } else if an == "for"@ {
            if av == "edge"@ {
                key_fold(attrs, i + 1, id, KeyV { for_type: ForTypes::Edge, ..k })
            } else if av == "node"@ {
                key_fold(attrs, i + 1, id, KeyV { for_type: ForTypes::Node, ..k })
            } else if av == "graph"@ {
                key_fold(attrs, i + 1, id, KeyV { for_type: ForTypes::Graph, ..k })
            } else {
                Option::None
            }
        } else {
            key_fold(attrs, i + 1, id, k)
        }
    }
}

/// The id and key a `<key>` element declares, starting from the defaults:
/// an empty name, type string, for edges.
pub open spec fn spec_parse_key(attrs: Seq<(Seq<char>, Seq<char>)>) -> Option<(Seq<char>, KeyV)> {
    key_fold(
        attrs,
        0,
        Seq::empty(),
        KeyV { name: Seq::empty(), ty: ValueTypes::Str, for_type: ForTypes::Edge },
    )
}

/// Read a `<key>` element's attributes.
fn parse_key(attrs: &Vec<(String, String)>) -> (r: Option<(String, Key)>)
    ensures
        r is None <==> spec_parse_key(attrs.deep_view()) is None,
        r matches Some(p) ==> spec_parse_key(attrs.deep_view()) == Some((p.0@, p.1@)),
{
    let ghost av = attrs.deep_view();
    let mut id = String::new();
    let mut key = Key {
        attr_name: String::new(),
        attr_type: ValueTypes::Str,
        for_type: ForTypes::Edge,
    };
    let n = attrs.len();
    let mut i: usize = 0;
    while i < n
        invariant
            0 <= i <= n,
            n == attrs@.len(),
            av == attrs.deep_view(),
            spec_parse_key(av) == key_fold(av, i as int, id@, key@),
        decreases n - i,
    {
        let an = &attrs[i].0;
        let ava = &attrs[i].1;
        if str_eq(an.as_str(), "attr.name") {
            key.attr_name = ava.clone();
        } else if str_eq(an.as_str(), "id") {
            id = ava.clone();
        } else if str_eq(an.as_str(), "attr.type") {
            if str_eq(ava.as_str(), "string") {
                key.attr_type = ValueTypes::Str;
            } else if str_eq(ava.as_str(), "double") {
                key.attr_type = ValueTypes::Double;
            } else if str_eq(ava.as_str(), "float") {
                key.attr_type = ValueTypes::Float;
            } else if str_eq(ava.as_str(), "int") {
                key.attr_type = ValueTypes::Int;
            } else {
                return None;
            }
        } else if str_eq(an.as_str(), "for") {
            if str_eq(ava.as_str(), "edge") {
                key.for_type = ForTypes::Edge;
            } else if str_eq(ava.as_str(), "node") {
                key.for_type = ForTypes::Node;
            } else if str_eq(ava.as_str(), "graph") {
                key.for_type = ForTypes::Graph;
            } else {
                return None;
            }
        }
        i = i + 1;
    }
    Some((id, key))
}

/// The key table with `id` bound to `k`: an existing binding is replaced in
/// place, a new one is appended.
pub open spec fn keys_insert(
    keys: Seq<(Seq<char>, KeyV)>,
    id: Seq<char>,
    k: KeyV,
) -> Seq<(Seq<char>, KeyV)> {
    let j = pair_find_idx(keys, id);
    if j < 0 {
        keys.push((id, k))
    } else {
        keys.update(j, (id, k))
    }
}

/// Bind `id` to `k` in the key table.
fn keys_insert_exec(keys: &mut Vec<(String, Key)>, id: String, k: Key)
    ensures
        final(keys).deep_view() == keys_insert(old(keys).deep_view(), id@, k@),
{
    let ghost kv = keys.deep_view();
    proof {
        lemma_pair_find_idx(kv, id@);
    }
    let n = keys.len();
    let mut i: usize = 0;
    while i < n
        invariant
            0 <= i <= n,
            n == keys@.len(),
            kv == keys.deep_view(),
            forall|j: int| 0 <= j < i ==> (#[trigger] kv[j]).0 != id@,
        decreases n - i,
    {
        if str_eq(keys[i].0.as_str(), id.as_str()) {
            proof {
                assert(kv[i as int].0 == id@);
                assert(pair_find_idx(kv, id@) == i as int);
            }
            let ghost e0 = keys@;
            let _ = keys.remove(i);
            keys.insert(i, (id, k));
            proof {
                assert(keys@ =~= e0.update(i as int, (id, k)));
                assert(keys.deep_view() =~~= keys_insert(kv, id@, k@));
            }
            return ;
        }
        i = i + 1;
    }
    proof {
        assert(pair_find_idx(kv, id@) < 0);
    }
    keys.push((id, k));
    proof {
        assert(keys.deep_view() =~~= keys_insert(kv, id@, k@));
    }
}

/// The working state of one GraphML-to-GML pass.
pub struct GraphmlToGmlState {
    pub state: CurrentState,
    pub in_data: bool,
    pub current_data_key: String,
    pub keys: Vec<(String, Key)>,
    pub graph_info_added: bool,
    pub node_id: u32,
    pub node_data: Vec<(String, String)>,
    pub edge_source: u32,
    pub edge_target: u32,
    pub edge_data: Vec<(String, String)>,
    pub graph_directed: Option<bool>,
    pub graph_data: Vec<(String, String)>,
    pub out: Vec<String>,
}

/// Mathematical image of [`GraphmlToGmlState`].
#[verifier::ext_equal]
pub ghost struct GraphmlToGmlStateV {
    pub st: CurrentState,
    pub in_data: bool,
    pub data_key: Seq<char>,
    pub keys: Seq<(Seq<char>, KeyV)>,
    pub graph_info_added: bool,
    pub node_id: u32,
    pub node_data: Seq<(Seq<char>, Seq<char>)>,
    pub edge_source: u32,
    pub edge_target: u32,
    pub edge_data: Seq<(Seq<char>, Seq<char>)>,
    pub graph_directed: Option<bool>,
    pub graph_data: Seq<(Seq<char>, Seq<char>)>,
    pub out: Seq<Seq<char>>,
}

impl View for GraphmlToGmlState {
    type V = GraphmlToGmlStateV;

    open spec fn view(&self) -> GraphmlToGmlStateV {
        GraphmlToGmlStateV {
            st: self.state,
            in_data: self.in_data,
            data_key: self.current_data_key@,
            keys: self.keys.deep_view(),
            graph_info_added: self.graph_info_added,
            node_id: self.node_id,
            node_data: self.node_data.deep_view(),
            edge_source: self.edge_source,
            edge_target: self.edge_target,
            edge_data: self.edge_data.deep_view(),
            graph_directed: self.graph_directed,
            graph_data: self.graph_data.deep_view(),
            out: self.out.deep_view(),
        }
    }
}

/// The empty state every pass starts from.
pub open spec fn ml_init() -> GraphmlToGmlStateV {
    GraphmlToGmlStateV {
        st: CurrentState::Graph,
        in_data: false,
        data_key: Seq::empty(),
        keys: Seq::empty(),
        graph_info_added: false,
        node_id: 0,
        node_data: Seq::empty(),
        edge_source: 0,
        edge_target: 0,
        edge_data: Seq::empty(),
        graph_directed: Option::None,
        graph_data: Seq::empty(),
        out: Seq::empty(),
    }
}

/// The state with one attribute recorded on the current element.
pub open spec fn push_attr(
    st: GraphmlToGmlStateV,
    name: Seq<char>,
    value: Seq<char>,
) -> GraphmlToGmlStateV {
    match st.st {
        CurrentState::Graph => GraphmlToGmlStateV {
            graph_data: st.graph_data.push((name, value)),
            ..st
        },
        CurrentState::Node => GraphmlToGmlStateV {
            node_data: st.node_data.push((name, value)),
            ..st
        },
        CurrentState::Edge => GraphmlToGmlStateV {
            edge_data: st.edge_data.push((name, value)),
            ..st
        },
    }
}

/// The state with the graph's opening lines flushed, once.
pub open spec fn flush_graph_info(st: GraphmlToGmlStateV) -> GraphmlToGmlStateV {
    if !st.graph_info_added {
        GraphmlToGmlStateV {
            out: st.out + lines_graph_start(st.graph_directed, st.graph_data),
            graph_info_added: true,
            ..st
        }
    } else {
        st
    }
}

/// What `<data>` text does to the state: empty text contributes nothing; an
/// undeclared key is fatal; a string-typed value is quoted. Under a float or
/// double key a value without a decimal point gains `.0` when it is an
/// integer token, its leading plus dropped (GML floats always carry a
/// decimal and print without an explicit plus), stays as it is when it
/// reads as a float some other way (an exponent, an infinity), and is fatal
/// otherwise.
pub open spec fn ml_text(st: GraphmlToGmlStateV, text: Seq<char>, pos: usize) -> Result<
    GraphmlToGmlStateV,
    ConvError,
> {
    if !st.in_data {
        Result::Ok(st)
    } else if text.len() == 0 || text == "\"\""@ {
        Result::Ok(st)
    } else {
        let j = pair_find_idx(st.keys, st.data_key);
        if j < 0 {
            Result::Err(ConvError::KeyNotFound { pos })
        } else {
            let key = st.keys[j].1;
            let value = if key.ty == ValueTypes::Str {
                seq!['"'] + text + seq!['"']
            } else {
                text
            };
            if (key.ty == ValueTypes::Float || key.ty == ValueTypes::Double) && !value.contains(
                '.',
            ) {
                if is_int_token(value) {
                    Result::Ok(push_attr(st, key.name, spec_strip_plus(value) + ".0"@))
                } else if is_float_token(value) {
                    Result::Ok(push_attr(st, key.name, value))
                } else {
                    Result::Err(ConvError::TypeMismatch { pos })
                }
            } else {
                Result::Ok(push_attr(st, key.name, value))
            }
        }
    }
}

/// What one XML event does to the state.
pub open spec fn ml_event(st: GraphmlToGmlStateV, ev: XmlEventV, pos: usize) -> Result<
    GraphmlToGmlStateV,
    ConvError,
> {
    match ev {
        XmlEventV::Decl => Result::Ok(st),
        XmlEventV::Start { name, attrs } => {
            if name == "graphml"@ {
                Result::Ok(st)
            } else if name == "graph"@ {
                let d = match spec_get_attribute(attrs, "edgedefault"@) {
                    Option::Some(v) => Option::Some(v == "directed"@),
                    Option::None => Option::None,
                };
                Result::Ok(GraphmlToGmlStateV { graph_directed: d, ..st })
            } else if name == "node"@ {
                let st1 = flush_graph_info(st);
                match spec_get_attribute(attrs, "id"@) {
                    Option::None => Result::Err(ConvError::Parse { pos }),
                    Option::Some(idv) => match spec_digits_value(idv) {
                        Option::None => Result::Err(ConvError::Parse { pos }),
                        Option::Some(n) => Result::Ok(
                            GraphmlToGmlStateV { node_id: n, st: CurrentState::Node, ..st1 },
                        ),
                    },
                }
            } else if name == "edge"@ {
                match spec_get_attribute(attrs, "target"@) {
                    Option::None => Result::Err(ConvError::Parse { pos }),
                    Option::Some(tv) => match spec_digits_value(tv) {
                        Option::None => Result::Err(ConvError::Parse { pos }),
                        Option::Some(t) => match spec_get_attribute(attrs, "source"@) {
                            Option::None => Result::Err(ConvError::Parse { pos }),
                            Option::Some(sv) => match spec_digits_value(sv) {
                                Option::None => Result::Err(ConvError::Parse { pos }),
                                Option::Some(s) => Result::Ok(
                                    GraphmlToGmlStateV {
                                        edge_target: t,
                                        edge_source: s,
                                        st: CurrentState::Edge,
                                        ..st
                                    },
                                ),
                            },
                        },
                    },
                }
            } else if name == "data"@ {
                match spec_get_attribute(attrs, "key"@) {
                    Option::None => Result::Err(ConvError::Parse { pos }),
                    Option::Some(k) => Result::Ok(
                        GraphmlToGmlStateV { data_key: k, in_data: true, ..st },
                    ),
                }
            } else {
                Result::Err(ConvError::UnsupportedTag { pos })
            }
        },
        XmlEventV::End { name } => {
            if name == "graph"@ {
                let st1 = flush_graph_info(st);
                Result::Ok(GraphmlToGmlStateV { out: st1.out + seq!["]"@], ..st1 })
            } else if name == "node"@ {
                Result::Ok(
                    GraphmlToGmlStateV {
                        out: st.out + lines_node(st.node_id as int, st.node_data),
                        st: CurrentState::Graph,
                        node_data: Seq::empty(),
                        ..st
                    },
                )
            } else if name == "edge"@ {
                Result::Ok(
                    GraphmlToGmlStateV {
                        out: st.out + lines_edge(
                            st.edge_source as int,
                            st.edge_target as int,
                            st.edge_data,
                        ),
                        st: CurrentState::Graph,
                        edge_data: Seq::empty(),
                        ..st
                    },
                )
            } else if name == "data"@ {
                Result::Ok(GraphmlToGmlStateV { in_data: false, ..st })
            } else {
                Result::Ok(st)
            }
        },
        XmlEventV::Empty { name, attrs } => {
            if name == "key"@ {
                match spec_parse_key(attrs) {
                    Option::None => Result::Err(ConvError::Parse { pos }),
                    Option::Some(p) => Result::Ok(
                        GraphmlToGmlStateV { keys: keys_insert(st.keys, p.0, p.1), ..st },
                    ),
                }
            } else {
                Result::Ok(st)
            }
        },
        XmlEventV::Text { text } => ml_text(st, text, pos),
    }
}

/// The state after the events from `i` on, or the first error.
pub open spec fn ml_run(events: Seq<XmlEventV>, i: int, st: GraphmlToGmlStateV) -> Result<
    GraphmlToGmlStateV,
    ConvError,
>
    decreases events.len() - i,
    when 0 <= i <= events.len()
{
    if i == events.len() {
        Result::Ok(st)
    } else {
        match ml_event(st, events[i], (i + 1) as usize) {
            Result::Ok(st2) => ml_run(events, i + 1, st2),
            Result::Err(e) => Result::Err(e),
        }
    }
}

/// The whole pass: the GML lines the event stream converts to, or the first
/// error.
pub open spec fn spec_graphml_to_gml(events: Seq<XmlEventV>) -> Result<Seq<Seq<char>>, ConvError> {
    match ml_run(events, 0, ml_init()) {
        Result::Ok(st) => Result::Ok(st.out),
        Result::Err(e) => Result::Err(e),
    }
}

/// Record one resolved attribute on the current element.
fn push_attr_exec(st: &mut GraphmlToGmlState, name: String, value: String)
    ensures
        final(st)@ == push_attr(old(st)@, name@, value@),
{
    let ghost nv = name@;
    let ghost vv = value@;
    match st.state {
        CurrentState::Graph => {
            let ghost d0 = st.graph_data.deep_view();
            st.graph_data.push((name, value));
            proof {
                assert(st.graph_data.deep_view() =~~= d0.push((nv, vv)));
            }
        },
        CurrentState::Node => {
            let ghost d0 = st.node_data.deep_view();
            st.node_data.push((name, value));
            proof {
                assert(st.node_data.deep_view() =~~= d0.push((nv, vv)));
            }
        },
        CurrentState::Edge => {
            let ghost d0 = st.edge_data.deep_view();
            st.edge_data.push((name, value));
            proof {
                assert(st.edge_data.deep_view() =~~= d0.push((nv, vv)));
            }
        },
    }
}

/// Flush the graph's opening lines, once.
fn flush_graph_info_exec(st: &mut GraphmlToGmlState)
    ensures
        final(st)@ == flush_graph_info(old(st)@),
{
    if !st.graph_info_added {
        write_graph_start(&mut st.out, st.graph_directed, &st.graph_data);
        st.graph_info_added = true;
    }
}

/// Index of the key bound to `id`, if any.
fn find_key_idx(keys: &Vec<(String, Key)>, id: &str) -> (r: Option<usize>)
    ensures
        r is None <==> pair_find_idx(keys.deep_view(), id@) < 0,
        r matches Some(f) ==> f < keys@.len() && pair_find_idx(keys.deep_view(), id@) == f as int,
{
    let ghost kv = keys.deep_view();
    proof {
        lemma_pair_find_idx(kv, id@);
    }
    let n = keys.len();
    let mut i: usize = 0;
    while i < n
        invariant
            0 <= i <= n,
            n == keys@.len(),
            kv == keys.deep_view(),
            forall|j: int| 0 <= j < i ==> (#[trigger] kv[j]).0 != id@,
        decreases n - i,
    {
        if str_eq(keys[i].0.as_str(), id) {
            proof {
                assert(kv[i as int].0 == id@);
                assert(pair_find_idx(kv, id@) == i as int);
            }
            return Some(i);
        }
        i = i + 1;
    }
    proof {
        assert(pair_find_idx(kv, id@) < 0);
    }
    None
}

/// Resolve `<data>` text against the key table and record it.
fn text_event(st: &mut GraphmlToGmlState, text: &str, pos: usize) -> (r: Result<(), ConvError>)
    ensures
        r matches Ok(u) ==> ml_text(old(st)@, text@, pos) == Result::<
            GraphmlToGmlStateV,
            ConvError,
        >::Ok(final(st)@),
        r matches Err(e) ==> ml_text(old(st)@, text@, pos) == Result::<
            GraphmlToGmlStateV,
            ConvError,
        >::Err(e),
{
    if !st.in_data {
        return Ok(());
    }
    if text.unicode_len() == 0 || str_eq(text, "\"\"") {
        return Ok(());
    }
    let ghost kv = st.keys.deep_view();
    let found = find_key_idx(&st.keys, st.current_data_key.as_str());
    let j = match found {
        Some(f) => f,
        None => {
            return Err(ConvError::KeyNotFound { pos });
        },
    };
    let kname = st.keys[j].1.attr_name.clone();
    let kty = st.keys[j].1.attr_type;
    let value: String = if matches!(kty, ValueTypes::Str) {
        let mut q = String::new();
        q.append("\"");
        q.append(text);
        q.append("\"");
        proof {
            reveal_strlit("\"");
            assert(q@ =~= seq!['"'] + text@ + seq!['"']);
        }
        q
    } else {
        text.to_owned()
    };
    let is_floatish = matches!(kty, ValueTypes::Float) || matches!(kty, ValueTypes::Double);
    if is_floatish && !contains_char(value.as_str(), '.') {
        if int_token(value.as_str()) {
            let ghost vv = value@;
            let vlen = value.as_str().unicode_len();
            let mut fixed: String = if vlen > 0 && value.as_str().get_char(0) == '+' {
                value.as_str().substring_char(1, vlen).to_owned()
            } else {
                value
            };
            proof {
                assert(fixed@ =~= spec_strip_plus(vv));
            }
            fixed.append(".0");
            proof {
                reveal_strlit(".0");
            }
            push_attr_exec(st, kname, fixed);
            Ok(())
        } else if is_float(value.as_str()) {
            push_attr_exec(st, kname, value);
            Ok(())
        } else {
            Err(ConvError::TypeMismatch { pos })
        }
    } else {
        push_attr_exec(st, kname, value);
        Ok(())
    }
}

/// Apply one XML event to the state.
fn process_event(st: &mut GraphmlToGmlState, ev: &XmlEvent, pos: usize) -> (r: Result<
    (),
    ConvError,
>)
    ensures
        r matches Ok(u) ==> ml_event(old(st)@, ev@, pos) == Result::<
            GraphmlToGmlStateV,
            ConvError,
        >::Ok(final(st)@),
        r matches Err(e) ==> ml_event(old(st)@, ev@, pos) == Result::<
            GraphmlToGmlStateV,
            ConvError,
        >::Err(e),
{
    match ev {
        XmlEvent::Decl => Ok(()),
        XmlEvent::Start { name, attrs } => {
            if str_eq(name.as_str(), "graphml") {
                Ok(())
            } else if str_eq(name.as_str(), "graph") {
                match get_attribute(attrs, "edgedefault") {
                    Some(v) => {
                        st.graph_directed = Some(str_eq(v.as_str(), "directed"));
                    },
                    None => {
                        st.graph_directed = None;
                    },
                }
                Ok(())
            } else if str_eq(name.as_str(), "node") {
                flush_graph_info_exec(st);
                match get_attribute(attrs, "id") {
                    None => Err(ConvError::Parse { pos }),
                    Some(idv) => match digits_value(idv.as_str()) {
                        None => Err(ConvError::Parse { pos }),
                        Some(n) => {
                            st.node_id = n;
                            st.state = CurrentState::Node;
                            Ok(())
                        },
                    },
                }
            } else if str_eq(name.as_str(), "edge") {
                match get_attribute(attrs, "target") {
                    None => Err(ConvError::Parse { pos }),
                    Some(tv) => match digits_value(tv.as_str()) {
                        None => Err(ConvError::Parse { pos }),
                        Some(t) => match get_attribute(attrs, "source") {
                            None => Err(ConvError::Parse { pos }),
                            Some(sv) => match digits_value(sv.as_str()) {
                                None => Err(ConvError::Parse { pos }),
                                Some(s) => {
                                    st.edge_target = t;
                                    st.edge_source = s;
                                    st.state = CurrentState::Edge;
                                    Ok(())
                                },
                            },
                        },
                    },
                }
            } else if str_eq(name.as_str(), "data") {
                match get_attribute(attrs, "key") {
                    None => Err(ConvError::Parse { pos }),
                    Some(k) => {
                        st.current_data_key = k;
                        st.in_data = true;
                        Ok(())
                    },
                }
            } else {
                Err(ConvError::UnsupportedTag { pos })
            }
        },
        XmlEvent::End { name } => {
            if str_eq(name.as_str(), "graph") {
                flush_graph_info_exec(st);
                write_graph_end(&mut st.out);
                Ok(())
            } else if str_eq(name.as_str(), "node") {
                write_node(&mut st.out, st.node_id, &st.node_data);
                st.state = CurrentState::Graph;
                st.node_data.clear();
                proof {
                    assert(st.node_data.deep_view() =~= Seq::<(Seq<char>, Seq<char>)>::empty());
                }
                Ok(())
            } else if str_eq(name.as_str(), "edge") {
                write_edge(&mut st.out, st.edge_source, st.edge_target, &st.edge_data);
                st.state = CurrentState::Graph;
                st.edge_data.clear();
                proof {
                    assert(st.edge_data.deep_view() =~= Seq::<(Seq<char>, Seq<char>)>::empty());
                }
                Ok(())
            } else if str_eq(name.as_str(), "data") {
                st.in_data = false;
                Ok(())
            } else {
                Ok(())
            }
        },
        XmlEvent::Empty { name, attrs } => {
            if str_eq(name.as_str(), "key") {
                match parse_key(attrs) {
                    None => Err(ConvError::Parse { pos }),
                    Some(p) => {
                        let (id, k) = p;
                        keys_insert_exec(&mut st.keys, id, k);
                        Ok(())
                    },
                }
            } else {
                Ok(())
            }
        },
        XmlEvent::Text { text } => {
            proof {
                assert(ev@ == (XmlEventV::Text { text: text@ }));
            }
            text_event(st, text.as_str(), pos)
        },
    }
}

/// Convert one GraphML document, given as its XML events, into GML lines.
/// The result is exactly [`spec_graphml_to_gml`] of the events.
pub fn graphml_to_gml_lines(events: &Vec<XmlEvent>) -> (r: Result<Vec<String>, ConvError>)
    ensures
        r matches Ok(lines) ==> spec_graphml_to_gml(events.deep_view()) == Result::<
            Seq<Seq<char>>,
            ConvError,
        >::Ok(lines.deep_view()),
        r matches Err(e) ==> spec_graphml_to_gml(events.deep_view()) == Result::<
            Seq<Seq<char>>,
            ConvError,
        >::Err(e),
{
    let ghost evv = events.deep_view();
    let mut st = GraphmlToGmlState {
        state: CurrentState::Graph,
        in_data: false,
        current_data_key: String::new(),
        keys: Vec::new(),
        graph_info_added: false,
        node_id: 0,
        node_data: Vec::new(),
        edge_source: 0,
        edge_target: 0,
        edge_data: Vec::new(),
        graph_directed: None,
        graph_data: Vec::new(),
        out: Vec::new(),
    };
    proof {
        assert(st@ =~~= ml_init());
    }
    let n = events.len();
    let mut i: usize = 0;
    while i < n
        invariant
            0 <= i <= n,
            n == events@.len(),
            evv == events.deep_view(),
            ml_run(evv, 0, ml_init()) == ml_run(evv, i as int, st@),
        decreases n - i,
    {
        let ghost pre = st@;
        match process_event(&mut st, &events[i], i + 1) {
            Ok(_) => {
                proof {
                    assert(evv[i as int] == events[i as int]@);
                    assert(ml_run(evv, i as int, pre) == ml_run(evv, i + 1, st@));
                }
            },
            Err(e) => {
                proof {
                    assert(evv[i as int] == events[i as int]@);
                    assert(ml_run(evv, i as int, pre) == Result::<
                        GraphmlToGmlStateV,
                        ConvError,
                    >::Err(e));
                }
                return Err(e);
            },
        }
        i = i + 1;
    }
    proof {
        assert(ml_run(evv, n as int, st@) == Result::<GraphmlToGmlStateV, ConvError>::Ok(st@));
    }
    Ok(st.out)
}

} // verus!
