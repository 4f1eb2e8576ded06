//! The GML parser and the GML-to-GraphML pass: a state machine over input
//! lines that accumulates graph, node and edge records and streams them out
//! as XML events. `<key>` declarations depend on ids known only after the
//! whole input is scanned, so the body events are buffered and the document
//! is assembled afterwards as header, keys, body and footer.

use vstd::prelude::*;
use crate::errors::ConvError;
use crate::graphml_writer::add_footer;
use crate::graphml_writer::add_graph_info;
use crate::graphml_writer::add_header;
use crate::graphml_writer::add_keys;
use crate::graphml_writer::add_node;
use crate::graphml_writer::add_edge;
use crate::graphml_writer::ev_edge;
use crate::graphml_writer::ev_footer;
use crate::graphml_writer::ev_graph_info;
use crate::graphml_writer::ev_header;
use crate::graphml_writer::ev_keys;
use crate::graphml_writer::ev_node;
use crate::json::enc_dict;
use crate::json::encode_dict;
use crate::json::scalar_of_token;
use crate::json::spec_scalar_of_token;
use crate::registry::GraphmlElems;
use crate::registry::KeyAttrV;
use crate::registry::KeyRegistry;
use crate::registry::KeyValV;
use crate::registry::lemma_update_element_sequential;
use crate::registry::reg_ids_sequential;
use crate::registry::spec_update_element;
use crate::registry::update_element;
use crate::strutil::contains_sub;
use crate::strutil::first_char_is;
use crate::strutil::has_sub;
use crate::strutil::last_char_is;
use crate::strutil::lemma_pair_find_idx;
use crate::strutil::pair_find_idx;
use crate::strutil::spec_split_kv;
use crate::strutil::spec_trim;
use crate::strutil::split_kv;
use crate::strutil::str_eq;
use crate::strutil::trim_str;
use crate::value::DictVal;
use crate::value::DictValV;
use crate::value::Scalar;
use crate::xml::XmlEvent;
use crate::xml::XmlEventV;

verus! {

/// Where the parser stands between lines.
#[derive(Debug, Clone, Copy, PartialEq, Eq, Hash, Structural)]
pub enum CurrentState {
    Graph,
    Node,
    NodeObject,
    Edge,
    EdgeObject,
}

/// The working state of one GML-to-GraphML pass.
pub struct GmlToGraphmlState {
    pub state: CurrentState,
    pub node_id: String,
    pub node_data: Vec<(String, Vec<String>)>,
    pub edge_source: String,
    pub edge_target: String,
    pub edge_data: Vec<(String, Vec<String>)>,
    pub graph_directed: Option<bool>,
    pub graph_data: Vec<(String, Vec<String>)>,
    pub graph_added: bool,
    pub keys: KeyRegistry,
    pub dict_key: String,
    pub dict: Vec<(String, DictVal)>,
    pub staging: String,
    pub body: Vec<XmlEvent>,
}

/// Mathematical image of [`GmlToGraphmlState`].
#[verifier::ext_equal]
pub ghost struct GmlToGraphmlStateV {
    pub st: CurrentState,
    pub node_id: Seq<char>,
    pub node_data: Seq<(Seq<char>, Seq<Seq<char>>)>,
    pub edge_source: Seq<char>,
    pub edge_target: Seq<char>,
    pub edge_data: Seq<(Seq<char>, Seq<Seq<char>>)>,
    pub graph_directed: Option<bool>,
    pub graph_data: Seq<(Seq<char>, Seq<Seq<char>>)>,
    pub graph_added: bool,
    pub reg: Seq<(KeyAttrV, KeyValV)>,
    pub dict_key: Seq<char>,
    pub dict: Seq<(Seq<char>, DictValV)>,
    pub staging: Seq<char>,
    pub body: Seq<XmlEventV>,
}

impl View for GmlToGraphmlState {
    type V = GmlToGraphmlStateV;

    open spec fn view(&self) -> GmlToGraphmlStateV {
        GmlToGraphmlStateV {
            st: self.state,
            node_id: self.node_id@,
            node_data: self.node_data.deep_view(),
            edge_source: self.edge_source@,
            edge_target: self.edge_target@,
            edge_data: self.edge_data.deep_view(),
            graph_directed: self.graph_directed,
            graph_data: self.graph_data.deep_view(),
            graph_added: self.graph_added,
            reg: self.keys.deep_view(),
            dict_key: self.dict_key@,
            dict: self.dict.deep_view(),
            staging: self.staging@,
            body: self.body.deep_view(),
        }
    }
}

/// The empty state every pass starts from.
pub open spec fn g2g_init() -> GmlToGraphmlStateV {
    GmlToGraphmlStateV {
        st: CurrentState::Graph,
        node_id: Seq::empty(),
        node_data: Seq::empty(),
        edge_source: Seq::empty(),
        edge_target: Seq::empty(),
        edge_data: Seq::empty(),
        graph_directed: Option::None,
        graph_data: Seq::empty(),
        graph_added: false,
        reg: Seq::empty(),
        dict_key: Seq::empty(),
        dict: Seq::empty(),
        staging: Seq::empty(),
        body: Seq::empty(),
    }
}

/// What one data line inside an open nested block does to the dict being
/// built: a name equal to the most recently inserted one extends that entry
/// into a list; any other name inserts (or replaces) a scalar entry and
/// becomes the new most recent name.
pub open spec fn dict_insert(
    dict: Seq<(Seq<char>, DictValV)>,
    staging: Seq<char>,
    name: Seq<char>,
    value: Seq<char>,
) -> (Seq<(Seq<char>, DictValV)>, Seq<char>) {
    let sc = spec_scalar_of_token(value);
    let j = pair_find_idx(dict, name);
    if name == staging && j >= 0 {
        let nv = match dict[j].1 {
            DictValV::One(s0) => DictValV::Many(seq![s0, sc]),
            DictValV::Many(vs) => DictValV::Many(vs.push(sc)),
        };
        (dict.update(j, (dict[j].0, nv)), staging)
    } else if j >= 0 {
        (dict.update(j, (dict[j].0, DictValV::One(sc))), name)
    } else {
        (dict.push((name, DictValV::One(sc))), name)
    }
}

/// What one `name value` data line does to the state, by current state.
pub open spec fn g2g_data(
    st: GmlToGraphmlStateV,
    name: Seq<char>,
    value: Seq<char>,
) -> GmlToGraphmlStateV {
    match st.st {
        CurrentState::Graph => {
            if name == "directed"@ {
                GmlToGraphmlStateV { graph_directed: Option::Some(value == "1"@), ..st }
            } else {
                let p = spec_update_element(st.graph_data, st.reg, value, GraphmlElems::Graph, name);
                GmlToGraphmlStateV { graph_data: p.0, reg: p.1, ..st }
            }
        },
        CurrentState::Node => {
            if name == "id"@ {
                GmlToGraphmlStateV { node_id: seq!['n'] + value, ..st }
            } else if value.len() > 0 && value.last() == '[' {
                GmlToGraphmlStateV { st: CurrentState::NodeObject, dict_key: name, ..st }
            } else {
                let p = spec_update_element(st.node_data, st.reg, value, GraphmlElems::Node, name);
                GmlToGraphmlStateV { node_data: p.0, reg: p.1, ..st }
            }
        },
        CurrentState::Edge => {
            if name == "source"@ {
                GmlToGraphmlStateV { edge_source: seq!['n'] + value, ..st }
            } else if name == "target"@ {
                GmlToGraphmlStateV { edge_target: seq!['n'] + value, ..st }
            } else if value.len() > 0 && value.last() == '[' {
                GmlToGraphmlStateV { st: CurrentState::EdgeObject, dict_key: name, ..st }
            } else {
                let p = spec_update_element(st.edge_data, st.reg, value, GraphmlElems::Edge, name);
                GmlToGraphmlStateV { edge_data: p.0, reg: p.1, ..st }
            }
        },
        CurrentState::NodeObject => {
            let p = dict_insert(st.dict, st.staging, name, value);
            GmlToGraphmlStateV { dict: p.0, staging: p.1, ..st }
        },
        CurrentState::EdgeObject => {
            let p = dict_insert(st.dict, st.staging, name, value);
            GmlToGraphmlStateV { dict: p.0, staging: p.1, ..st }
        },
    }
}

/// What a lone `]` does: close the innermost open construct. A node or edge
/// is flushed to the body; a nested block is encoded and recorded as one
/// attribute value on the owning element; at graph level the bracket is the
/// document's own closing and is ignored.
pub open spec fn g2g_close(st: GmlToGraphmlStateV) -> GmlToGraphmlStateV {
    match st.st {
        CurrentState::Edge => GmlToGraphmlStateV {
            body: st.body + ev_edge(st.edge_source, st.edge_target, st.edge_data),
            edge_data: Seq::empty(),
            st: CurrentState::Graph,
            ..st
        },
        CurrentState::Node => GmlToGraphmlStateV {
            body: st.body + ev_node(st.node_id, st.node_data),
            node_data: Seq::empty(),
            st: CurrentState::Graph,
            ..st
        },
        CurrentState::Graph => st,
        CurrentState::NodeObject => {
            let ser = enc_dict(st.dict);
            let p = spec_update_element(st.node_data, st.reg, ser, GraphmlElems::Node, st.dict_key);
            GmlToGraphmlStateV {
                node_data: p.0,
                reg: p.1,
                st: CurrentState::Node,
                dict: Seq::empty(),
                staging: Seq::empty(),
                ..st
            }
        },
        CurrentState::EdgeObject => {
            let ser = enc_dict(st.dict);
            let p = spec_update_element(st.edge_data, st.reg, ser, GraphmlElems::Edge, st.dict_key);
            GmlToGraphmlStateV {
                edge_data: p.0,
                reg: p.1,
                st: CurrentState::Edge,
                dict: Seq::empty(),
                staging: Seq::empty(),
                ..st
            }
        },
    }
}

/// What one input line does to the state. Comment and empty lines are
/// skipped; the first `node [` flushes the graph header once; a line that
/// holds data but does not split into a name and a value is a parse error
/// naming the line.
pub open spec fn g2g_line(st: GmlToGraphmlStateV, line: Seq<char>, pos: usize) -> Result<
    GmlToGraphmlStateV,
    ConvError,
> {
    let t = spec_trim(line);
    if t.len() > 0 && t.first() == '#' {
        Result::Ok(st)
    } else if has_sub(t, "graph ["@) {
        Result::Ok(GmlToGraphmlStateV { st: CurrentState::Graph, ..st })
    } else if has_sub(t, "node ["@) {
        let st1 = if !st.graph_added {
            GmlToGraphmlStateV {
                body: st.body + ev_graph_info(st.graph_directed, st.graph_data),
                graph_added: true,
                ..st
            }
        } else {
            st
        };
        Result::Ok(GmlToGraphmlStateV { st: CurrentState::Node, ..st1 })
    } else if has_sub(t, "edge ["@) {
        Result::Ok(GmlToGraphmlStateV { st: CurrentState::Edge, ..st })
    } else if t == "]"@ {
        Result::Ok(g2g_close(st))
    } else if t.len() == 0 {
        Result::Ok(st)
    } else {
        match spec_split_kv(t) {
            Option::Some(p) => Result::Ok(g2g_data(st, p.0, p.1)),
            Option::None => Result::Err(ConvError::Parse { pos }),
        }
    }
}

/// The state after the lines from `i` on, or the first error.
pub open spec fn g2g_run(lines: Seq<Seq<char>>, i: int, st: GmlToGraphmlStateV) -> Result<
    GmlToGraphmlStateV,
    ConvError,
>
    decreases lines.len() - i,
    when 0 <= i <= lines.len()
{
    if i == lines.len() {
        Result::Ok(st)
    } else {
        match g2g_line(st, lines[i], (i + 1) as usize) {
            Result::Ok(st2) => g2g_run(lines, i + 1, st2),
            Result::Err(e) => Result::Err(e),
        }
    }
}

/// The whole pass: run the state machine over every line; end of input
/// anywhere but at graph level is a parse error; a graph that never saw a
/// node still gets its header; then the document is header, keys, body,
/// footer.
pub open spec fn spec_gml_to_graphml(lines: Seq<Seq<char>>) -> Result<Seq<XmlEventV>, ConvError> {
    match g2g_run(lines, 0, g2g_init()) {
        Result::Ok(st) => {
            if st.st != CurrentState::Graph {
                Result::Err(ConvError::Parse { pos: lines.len() as usize })
            } else {
                let body = if !st.graph_added {
                    st.body + ev_graph_info(st.graph_directed, st.graph_data)
                } else {
                    st.body
                };
                Result::Ok(ev_header() + ev_keys(st.reg) + body + ev_footer())
            }
        },
        Result::Err(e) => Result::Err(e),
    }
}

/// One line keeps the registry's ids sequential: the registry changes only
/// through lookup-or-insert and widening, and both preserve the property.
pub proof fn lemma_g2g_line_sequential(st: GmlToGraphmlStateV, line: Seq<char>, pos: usize)
    requires
        reg_ids_sequential(st.reg),
    ensures
        g2g_line(st, line, pos) matches Ok(st2) ==> reg_ids_sequential(st2.reg),
{
    let t = spec_trim(line);
    match spec_split_kv(t) {
        Option::Some(p) => {
            lemma_update_element_sequential(st.graph_data, st.reg, p.1, GraphmlElems::Graph, p.0);
            lemma_update_element_sequential(st.node_data, st.reg, p.1, GraphmlElems::Node, p.0);
            lemma_update_element_sequential(st.edge_data, st.reg, p.1, GraphmlElems::Edge, p.0);
        },
        Option::None => {},
    }
    lemma_update_element_sequential(
        st.node_data,
        st.reg,
        enc_dict(st.dict),
        GraphmlElems::Node,
        st.dict_key,
    );
    lemma_update_element_sequential(
        st.edge_data,
        st.reg,
        enc_dict(st.dict),
        GraphmlElems::Edge,
        st.dict_key,
    );
}

/// Record one data line of an open nested block on the dict being built.
fn dict_insert_exec(dict: &mut Vec<(String, DictVal)>, staging: &mut String, name: &str, value:
    &str)
    ensures
        ({
            let p = dict_insert(old(dict).deep_view(), old(staging)@, name@, value@);
            final(dict).deep_view() == p.0 && final(staging)@ == p.1
        }),
{
    let ghost dv = dict.deep_view();
    let sc = scalar_of_token(value);
    proof {
        lemma_pair_find_idx(dv, name@);
    }
    let n = dict.len();
    let mut i: usize = 0;
    while i < n
        invariant
            0 <= i <= n,
            n == dict@.len(),
            dv == dict.deep_view(),
            staging@ == old(staging)@,
            sc@ == spec_scalar_of_token(value@),
            forall|j: int| 0 <= j < i ==> (#[trigger] dv[j]).0 != name@,
        decreases n - i,
    {
        if str_eq(dict[i].0.as_str(), name) {
            proof {
                assert(dv[i as int].0 == name@);
                assert(pair_find_idx(dv, name@) == i as int);
            }
            let same = str_eq(name, staging.as_str());
            let ghost e0 = dict@;
            let pair = dict.remove(i);
            let (key, val) = pair;
            proof {
                assert(key@ == dv[i as int].0);
                assert(val@ == dv[i as int].1);
            }
            if same {
                let nv = match val {
                    DictVal::One(s0) => {
                        let mut items: Vec<Scalar> = Vec::new();
                        items.push(s0);
                        items.push(sc);
                        proof {
                            assert(items.deep_view() =~~= seq![
                                dv[i as int].1->One_0,
                                spec_scalar_of_token(value@),
                            ]);
                        }
                        DictVal::Many(items)
                    },
                    DictVal::Many(mut vs) => {
                        let ghost vs0 = vs.deep_view();
                        vs.push(sc);
                        proof {
                            assert(vs.deep_view() =~~= vs0.push(spec_scalar_of_token(value@)));
                        }
                        DictVal::Many(vs)
                    },
                };
                proof {
                    assert(nv@ == dict_insert(dv, old(staging)@, name@, value@).0[i as int].1);
                }
                dict.insert(i, (key, nv));
                proof {
                    assert(dict@ =~= e0.update(i as int, (key, nv)));
                    assert(dict.deep_view() =~~= dict_insert(dv, old(staging)@, name@, value@).0);
                }
            } else {
                let nv = DictVal::One(sc);
                dict.insert(i, (key, nv));
                *staging = name.to_owned();
                proof {
                    assert(dict@ =~= e0.update(i as int, (key, DictVal::One(sc))));
                    assert(dict.deep_view() =~~= dict_insert(dv, old(staging)@, name@, value@).0);
                }
            }
            return ;
        }
        i = i + 1;
    }
    proof {
        assert(pair_find_idx(dv, name@) < 0);
    }
    dict.push((name.to_owned(), DictVal::One(sc)));
    *staging = name.to_owned();
    proof {
        assert(dict.deep_view() =~~= dict_insert(dv, old(staging)@, name@, value@).0);
    }
}

/// Apply one `name value` data line to the state.
fn data_line(st: &mut GmlToGraphmlState, name: &str, value: &str)
    ensures
        final(st)@ == g2g_data(old(st)@, name@, value@),
{
    match st.state {
        CurrentState::Graph => {
            if str_eq(name, "directed") {
                st.graph_directed = Some(str_eq(value, "1"));
            } else {
                update_element(
                    &mut st.graph_data,
                    &mut st.keys,
                    value,
                    GraphmlElems::Graph,
                    name,
                );
            }
        },
        CurrentState::Node => {
            if str_eq(name, "id") {
                let mut id = String::new();
                id.append("n");
                id.append(value);
                proof {
                    reveal_strlit("n");
                    assert(id@ =~= seq!['n'] + value@);
                }
                st.node_id = id;
            } else if last_char_is(value, '[') {
                st.state = CurrentState::NodeObject;
                st.dict_key = name.to_owned();
            } else {
                update_element(&mut st.node_data, &mut st.keys, value, GraphmlElems::Node, name);
            }
        },
        CurrentState::Edge => {
            if str_eq(name, "source") {
                let mut id = String::new();
                id.append("n");
                id.append(value);
                proof {
                    reveal_strlit("n");
                    assert(id@ =~= seq!['n'] + value@);
                }
                st.edge_source = id;
            } else if str_eq(name, "target") {
                let mut id = String::new();
                id.append("n");
                id.append(value);
                proof {
                    reveal_strlit("n");
                    assert(id@ =~= seq!['n'] + value@);
                }
                st.edge_target = id;
            } else if last_char_is(value, '[') {
                st.state = CurrentState::EdgeObject;
                st.dict_key = name.to_owned();
            } else {
                update_element(&mut st.edge_data, &mut st.keys, value, GraphmlElems::Edge, name);
            }
        },
        CurrentState::NodeObject => {
            dict_insert_exec(&mut st.dict, &mut st.staging, name, value);
        },
        CurrentState::EdgeObject => {
            dict_insert_exec(&mut st.dict, &mut st.staging, name, value);
        },
    }
}

/// Close the innermost open construct on a lone `]`.
fn close_line(st: &mut GmlToGraphmlState)
    ensures
        final(st)@ == g2g_close(old(st)@),
{
    match st.state {
        CurrentState::Edge => {
            add_edge(&mut st.body, &st.edge_source, &st.edge_target, &st.edge_data);
            st.edge_data.clear();
            st.state = CurrentState::Graph;
        },
        CurrentState::Node => {
            add_node(&mut st.body, &st.node_id, &st.node_data);
            st.node_data.clear();
            st.state = CurrentState::Graph;
        },
        CurrentState::Graph => {},
        CurrentState::NodeObject => {
            let ser = encode_dict(&st.dict);
            update_element(
                &mut st.node_data,
                &mut st.keys,
                ser.as_str(),
                GraphmlElems::Node,
                st.dict_key.as_str(),
            );
            st.state = CurrentState::Node;
            st.dict.clear();
            st.staging = String::new();
        },
        CurrentState::EdgeObject => {
            let ser = encode_dict(&st.dict);
            update_element(
                &mut st.edge_data,
                &mut st.keys,
                ser.as_str(),
                GraphmlElems::Edge,
                st.dict_key.as_str(),
            );
            st.state = CurrentState::Edge;
            st.dict.clear();
            st.staging = String::new();
        },
    }
}

/// Apply one input line to the state.
fn process_line(st: &mut GmlToGraphmlState, line: &str, pos: usize) -> (r: Result<(), ConvError>)
    ensures
        r matches Ok(u) ==> g2g_line(old(st)@, line@, pos) == Result::<
            GmlToGraphmlStateV,
            ConvError,
        >::Ok(final(st)@),
        r matches Err(e) ==> g2g_line(old(st)@, line@, pos) == Result::<
            GmlToGraphmlStateV,
            ConvError,
        >::Err(e),
{
    let t = trim_str(line);
    if first_char_is(t, '#') {
        return Ok(());
    }
    if contains_sub(t, "graph [") {
        st.state = CurrentState::Graph;
        return Ok(());
    }
    if contains_sub(t, "node [") {
        if !st.graph_added {
            add_graph_info(&mut st.body, st.graph_directed, &st.graph_data);
            st.graph_added = true;
        }
        st.state = CurrentState::Node;
        return Ok(());
    }
    if contains_sub(t, "edge [") {
        st.state = CurrentState::Edge;
        return Ok(());
    }
    if str_eq(t, "]") {
        close_line(st);
        return Ok(());
    }
    if t.unicode_len() == 0 {
        return Ok(());
    }
    match split_kv(t) {
        Some(p) => {
            let (name, value) = p;
            data_line(st, name, value);
            Ok(())
        },
        None => Err(ConvError::Parse { pos }),
    }
}

/// Convert GML text, given as its lines, into the events of one GraphML
/// document. The result is exactly [`spec_gml_to_graphml`] of the lines: a
/// header, one `<key>` per registry entry, the buffered body and the
/// closing tags on success, and the first error otherwise.
pub fn gml_to_graphml_events(lines: &Vec<String>) -> (r: Result<Vec<XmlEvent>, ConvError>)
    ensures
        r matches Ok(evs) ==> spec_gml_to_graphml(lines.deep_view()) == Result::<
            Seq<XmlEventV>,
            ConvError,
        >::Ok(evs.deep_view()),
        r matches Err(e) ==> spec_gml_to_graphml(lines.deep_view()) == Result::<
            Seq<XmlEventV>,
            ConvError,
        >::Err(e),
{
    let ghost lv = lines.deep_view();
    let mut st = GmlToGraphmlState {
        state: CurrentState::Graph,
        node_id: String::new(),
        node_data: Vec::new(),
        edge_source: String::new(),
        edge_target: String::new(),
        edge_data: Vec::new(),
        graph_directed: None,
        graph_data: Vec::new(),
        graph_added: false,
        keys: Vec::new(),
        dict_key: String::new(),
        dict: Vec::new(),
        staging: String::new(),
        body: Vec::new(),
    };
    proof {
        assert(st@ =~~= g2g_init());
    }
    let n = lines.len();
    let mut i: usize = 0;
    while i < n
        invariant
            0 <= i <= n,
            n == lines@.len(),
            lv == lines.deep_view(),
            reg_ids_sequential(st@.reg),
            g2g_run(lv, 0, g2g_init()) == g2g_run(lv, i as int, st@),
        decreases n - i,
    {
        let ghost pre = st@;
        match process_line(&mut st, lines[i].as_str(), i + 1) {
            Ok(_) => {
                proof {
                    assert(lv[i as int] == lines[i as int]@);
                    lemma_g2g_line_sequential(pre, lv[i as int], (i + 1) as usize);
                    assert(g2g_run(lv, i as int, pre) == g2g_run(lv, i + 1, st@));
                }
            },
            Err(e) => {
                proof {
                    assert(lv[i as int] == lines[i as int]@);
                    assert(g2g_run(lv, i as int, pre) == Result::<
                        GmlToGraphmlStateV,
                        ConvError,
                    >::Err(e));
                }
                return Err(e);
            },
        }
        i = i + 1;
    }
    proof {
        assert(g2g_run(lv, n as int, st@) == Result::<GmlToGraphmlStateV, ConvError>::Ok(st@));
    }
    if !matches!(st.state, CurrentState::Graph) {
        return Err(ConvError::Parse { pos: lines.len() });
    }
    if !st.graph_added {
        add_graph_info(&mut st.body, st.graph_directed, &st.graph_data);
        st.graph_added = true;
    }
    let mut out: Vec<XmlEvent> = Vec::new();
    add_header(&mut out);
    add_keys(&mut out, &st.keys);
    out.append(&mut st.body);
    add_footer(&mut out);
    proof {
        assert(out.deep_view() =~~= spec_gml_to_graphml(lv)->Ok_0);
    }
    Ok(out)
}

} // verus!
