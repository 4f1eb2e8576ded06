//! The GraphML writer: turns graph, node and edge records into XML events.
//! A record's attribute map is keyed by registry id; each entry becomes one
//! `<data>` element. Several values under one id are joined into a single
//! bracketed list text. The `<key>` declarations are emitted from the
//! registry in entry order, which is ascending id order, since ids are
//! assigned sequentially.

use vstd::prelude::*;
use crate::registry::KeyAttrV;
use crate::registry::KeyRegistry;
use crate::registry::KeyValV;
use crate::registry::reg_ids_sequential;
use crate::xml::XmlEvent;
use crate::xml::XmlEventV;

verus! {

/// Values joined by commas.
pub open spec fn spec_join_comma(vs: Seq<Seq<char>>) -> Seq<char>
    decreases vs.len(),
{
    if vs.len() == 0 {
        Seq::empty()
    } else if vs.len() == 1 {
        vs[0]
    } else {
        spec_join_comma(vs.drop_last()) + seq![','] + vs.last()
    }
}

/// Surrounding quotes removed, when the value both starts and ends with one.
pub open spec fn spec_strip_quotes(v: Seq<char>) -> Seq<char> {
    if v.len() >= 2 && v.first() == '"' && v.last() == '"' {
        v.subrange(1, v.len() - 1)
    } else {
        v
    }
}

/// The text of one `<data>` element: a single value as itself, several
/// values as a bracketed comma-joined list, then surrounding quotes
/// stripped.
pub open spec fn spec_data_text(vs: Seq<Seq<char>>) -> Seq<char> {
    let joined = if vs.len() > 1 {
        seq!['['] + spec_join_comma(vs) + seq![']']
    } else if vs.len() == 1 {
        vs[0]
    } else {
        Seq::empty()
    };
    spec_strip_quotes(joined)
}

/// The three events of one `<data>` element.
pub open spec fn ev_data(id: Seq<char>, vs: Seq<Seq<char>>) -> Seq<XmlEventV> {
    seq![
        XmlEventV::Start { name: "data"@, attrs: seq![("key"@, id)] },
        XmlEventV::Text { text: spec_data_text(vs) },
        XmlEventV::End { name: "data"@ },
    ]
}

/// The `<data>` elements of an attribute map, in entry order.
pub open spec fn ev_elem_data(m: Seq<(Seq<char>, Seq<Seq<char>>)>) -> Seq<XmlEventV>
    decreases m.len(),
{
    if m.len() == 0 {
        Seq::empty()
    } else {
        ev_elem_data(m.drop_last()) + ev_data(m.last().0, m.last().1)
    }
}

/// The `<graph>` start tag (with `edgedefault` when directedness is known)
/// and the graph's own `<data>` elements. The tag is closed by the footer.
pub open spec fn ev_graph_info(
    directed: Option<bool>,
    m: Seq<(Seq<char>, Seq<Seq<char>>)>,
) -> Seq<XmlEventV> {
    let attrs: Seq<(Seq<char>, Seq<char>)> = match directed {
        Option::Some(true) => seq![("edgedefault"@, "directed"@)],
        Option::Some(false) => seq![("edgedefault"@, "undirected"@)],
        Option::None => Seq::empty(),
    };
    seq![XmlEventV::Start { name: "graph"@, attrs: attrs }] + ev_elem_data(m)
}

/// A whole `<node>` element.
pub open spec fn ev_node(id: Seq<char>, m: Seq<(Seq<char>, Seq<Seq<char>>)>) -> Seq<XmlEventV> {
    seq![XmlEventV::Start { name: "node"@, attrs: seq![("id"@, id)] }] + ev_elem_data(m) + seq![
        XmlEventV::End { name: "node"@ },
    ]
}

/// A whole `<edge>` element.
pub open spec fn ev_edge(
    source: Seq<char>,
    target: Seq<char>,
    m: Seq<(Seq<char>, Seq<Seq<char>>)>,
) -> Seq<XmlEventV> {
    seq![
        XmlEventV::Start {
            name: "edge"@,
            attrs: seq![("source"@, source), ("target"@, target)],
        },
    ] + ev_elem_data(m) + seq![XmlEventV::End { name: "edge"@ }]
}

/// The declaration and the `<graphml>` root tag with its fixed namespace
/// attributes.
pub open spec fn ev_header() -> Seq<XmlEventV> {
    seq![
        XmlEventV::Decl,
        XmlEventV::Start {
            name: "graphml"@,
            attrs: seq![
                ("xmlns"@, "http://graphml.graphdrawing.org/xmlns"@),
                ("xmlns:xsi"@, "http://www.w3.org/2001/XMLSchema-instance"@),
                (
                    "xsi:schemaLocation"@,
                    "http://graphml.graphdrawing.org/xmlns http://graphml.graphdrawing.org/xmlns/1.0/graphml.xsd"@,
                ),
            ],
        },
    ]
}

/// One `<key>` declaration per registry entry, in entry order.
pub open spec fn ev_keys(reg: Seq<(KeyAttrV, KeyValV)>) -> Seq<XmlEventV>
    decreases reg.len(),
{
    if reg.len() == 0 {
        Seq::empty()
    } else {
        ev_keys(reg.drop_last()) + seq![
            XmlEventV::Empty {
                name: "key"@,
                attrs: seq![
                    ("id"@, reg.last().1.id),
                    ("for"@, reg.last().0.elem.spec_value()),
                    ("attr.name"@, reg.last().0.name),
                    ("attr.type"@, reg.last().1.ty.spec_value()),
                ],
            },
        ]
    }
}

/// The key events are one per registry entry, in entry order.
pub proof fn lemma_ev_keys_index(reg: Seq<(KeyAttrV, KeyValV)>)
    ensures
        ev_keys(reg).len() == reg.len(),
        forall|k: int|
            0 <= k < reg.len() ==> #[trigger] ev_keys(reg)[k] == (XmlEventV::Empty {
                name: "key"@,
                attrs: seq![
                    ("id"@, reg[k].1.id),
                    ("for"@, reg[k].0.elem.spec_value()),
                    ("attr.name"@, reg[k].0.name),
                    ("attr.type"@, reg[k].1.ty.spec_value()),
                ],
            }),
    decreases reg.len(),
{
    if reg.len() > 0 {
        lemma_ev_keys_index(reg.drop_last());
        assert forall|k: int|
            0 <= k < reg.len() implies #[trigger] ev_keys(reg)[k] == (XmlEventV::Empty {
            name: "key"@,
            attrs: seq![
                ("id"@, reg[k].1.id),
                ("for"@, reg[k].0.elem.spec_value()),
                ("attr.name"@, reg[k].0.name),
                ("attr.type"@, reg[k].1.ty.spec_value()),
            ],
        }) by {
            if k < reg.len() - 1 {
                assert(ev_keys(reg)[k] == ev_keys(reg.drop_last())[k]);
                assert(reg.drop_last()[k] == reg[k]);
            } else {
                assert(reg.last() == reg[k]);
            }
        }
    }
}

/// The closing tags of `<graph>` and `<graphml>`.
pub open spec fn ev_footer() -> Seq<XmlEventV> {
    seq![XmlEventV::End { name: "graph"@ }, XmlEventV::End { name: "graphml"@ }]
}

/// Render the text of one `<data>` element.
fn format_data_text(vs: &Vec<String>) -> (r: String)
    ensures
        r@ == spec_data_text(vs.deep_view()),
{
    let ghost vv = vs.deep_view();
    let n = vs.len();
    let joined: String = if n > 1 {
        let mut out = String::new();
        out.append("[");
        proof {
            reveal_strlit("[");
            reveal_strlit("]");
            reveal_strlit(",");
            assert(out@ =~= seq!['['] + spec_join_comma(vv.take(0)));
        }
        let mut i: usize = 0;
        while i < n
            invariant
                0 <= i <= n,
                n == vs@.len(),
                n > 1,
                vv == vs.deep_view(),
                out@ == seq!['['] + spec_join_comma(vv.take(i as int)),
            decreases n - i,
        {
            if i > 0 {
                out.append(",");
            }
            out.append(vs[i].as_str());
            proof {
                reveal_strlit(",");
                assert(vv.take(i + 1).drop_last() =~= vv.take(i as int));
                assert(vv.take(i + 1).last() == vv[i as int]);
                if i > 0 {
                    assert(out@ =~= seq!['['] + (spec_join_comma(vv.take(i as int)) + seq![',']
                        + vv[i as int]));
                } else {
                    assert(vv.take(1) =~= seq![vv[0]]);
                    assert(out@ =~= seq!['['] + vv[0]);
                }
            }
            i = i + 1;
        }
        out.append("]");
        proof {
            reveal_strlit("]");
            assert(vv.take(n as int) =~= vv);
            assert(out@ =~= seq!['['] + spec_join_comma(vv) + seq![']']);
        }
        out
    } else if n == 1 {
        vs[0].clone()
    } else {
        String::new()
    };
    let jlen = joined.unicode_len();
    if jlen >= 2 && joined.as_str().get_char(0) == '"' && joined.as_str().get_char(jlen - 1)
        == '"' {
        let stripped = joined.as_str().substring_char(1, jlen - 1).to_owned();
        proof {
            if n == 0 {
                assert(joined@.len() == 0);
            }
        }
        stripped
    } else {
        joined
    }
}

/// Append the `<data>` elements of one attribute map.
fn push_elem_data(out: &mut Vec<XmlEvent>, m: &Vec<(String, Vec<String>)>)
    ensures
        final(out).deep_view() == old(out).deep_view() + ev_elem_data(m.deep_view()),
{
    let ghost base = out.deep_view();
    let ghost mv = m.deep_view();
    let n = m.len();
    proof {
        assert(base + ev_elem_data(mv.take(0)) =~= base);
    }
    let mut i: usize = 0;
    while i < n
        invariant
            0 <= i <= n,
            n == m@.len(),
            mv == m.deep_view(),
            out.deep_view() == base + ev_elem_data(mv.take(i as int)),
        decreases n - i,
    {
        let mut attrs: Vec<(String, String)> = Vec::new();
        attrs.push(("key".to_owned(), m[i].0.clone()));
        out.push(XmlEvent::Start { name: "data".to_owned(), attrs: attrs });
        let text = format_data_text(&m[i].1);
        out.push(XmlEvent::Text { text: text });
        out.push(XmlEvent::End { name: "data".to_owned() });
        proof {
            assert(mv.take(i + 1).drop_last() =~= mv.take(i as int));
            assert(mv.take(i + 1).last() == mv[i as int]);
            assert(out.deep_view() =~~= base + ev_elem_data(mv.take(i as int)) + ev_data(
                mv[i as int].0,
                mv[i as int].1,
            ));
            assert(base + (ev_elem_data(mv.take(i as int)) + ev_data(mv[i as int].0, mv[i as int].1))
                =~= base + ev_elem_data(mv.take(i as int)) + ev_data(
                mv[i as int].0,
                mv[i as int].1,
            ));
        }
        i = i + 1;
    }
    proof {
        assert(mv.take(n as int) =~= mv);
    }
}

/// Append the `<graph>` start tag and the graph's own `<data>` elements.
pub fn add_graph_info(
    out: &mut Vec<XmlEvent>,
    directed: Option<bool>,
    data: &Vec<(String, Vec<String>)>,
)
    ensures
        final(out).deep_view() == old(out).deep_view() + ev_graph_info(directed, data.deep_view()),
{
    let ghost base = out.deep_view();
    let mut attrs: Vec<(String, String)> = Vec::new();
    match directed {
        Some(true) => {
            attrs.push(("edgedefault".to_owned(), "directed".to_owned()));
        },
        Some(false) => {
            attrs.push(("edgedefault".to_owned(), "undirected".to_owned()));
        },
        None => {},
    }
    out.push(XmlEvent::Start { name: "graph".to_owned(), attrs: attrs });
    proof {
        assert(out.deep_view() =~~= base + seq![
            ev_graph_info(directed, data.deep_view())[0],
        ]);
    }
    push_elem_data(out, data);
    proof {
        assert(base + ev_graph_info(directed, data.deep_view()) =~= base + seq![
            ev_graph_info(directed, data.deep_view())[0],
        ] + ev_elem_data(data.deep_view()));
    }
}

/// Append a whole `<node>` element.
pub fn add_node(out: &mut Vec<XmlEvent>, id: &String, data: &Vec<(String, Vec<String>)>)
    ensures
        final(out).deep_view() == old(out).deep_view() + ev_node(id@, data.deep_view()),
{
    let ghost base = out.deep_view();
    let ghost dv = data.deep_view();
    let ghost start_ev = XmlEventV::Start { name: "node"@, attrs: seq![("id"@, id@)] };
    let ghost end_ev = XmlEventV::End { name: "node"@ };
    let mut attrs: Vec<(String, String)> = Vec::new();
    attrs.push(("id".to_owned(), id.clone()));
    proof {
        assert(attrs.deep_view() =~~= seq![("id"@, id@)]);
    }
    out.push(XmlEvent::Start { name: "node".to_owned(), attrs: attrs });
    proof {
        assert(out.deep_view() =~~= base + seq![start_ev]);
    }
    push_elem_data(out, data);
    out.push(XmlEvent::End { name: "node".to_owned() });
    proof {
        assert(out.deep_view() =~~= (base + seq![start_ev] + ev_elem_data(dv)).push(end_ev));
        assert(ev_node(id@, dv) =~= seq![start_ev] + ev_elem_data(dv) + seq![end_ev]);
        assert((base + seq![start_ev] + ev_elem_data(dv)).push(end_ev) =~= base + ev_node(id@, dv));
    }
}

/// Append a whole `<edge>` element.
pub fn add_edge(
    out: &mut Vec<XmlEvent>,
    source: &String,
    target: &String,
    data: &Vec<(String, Vec<String>)>,
)
    ensures
        final(out).deep_view() == old(out).deep_view() + ev_edge(
            source@,
            target@,
            data.deep_view(),
        ),
{
    let ghost base = out.deep_view();
    let ghost dv = data.deep_view();
    let ghost start_ev = XmlEventV::Start {
        name: "edge"@,
        attrs: seq![("source"@, source@), ("target"@, target@)],
    };
    let ghost end_ev = XmlEventV::End { name: "edge"@ };
    let mut attrs: Vec<(String, String)> = Vec::new();
    attrs.push(("source".to_owned(), source.clone()));
    attrs.push(("target".to_owned(), target.clone()));
    proof {
        assert(attrs.deep_view() =~~= seq![("source"@, source@), ("target"@, target@)]);
    }
    out.push(XmlEvent::Start { name: "edge".to_owned(), attrs: attrs });
    proof {
        assert(out.deep_view() =~~= base + seq![start_ev]);
    }
    push_elem_data(out, data);
    out.push(XmlEvent::End { name: "edge".to_owned() });
    proof {
        assert(out.deep_view() =~~= (base + seq![start_ev] + ev_elem_data(dv)).push(end_ev));
        assert(ev_edge(source@, target@, dv) =~= seq![start_ev] + ev_elem_data(dv) + seq![end_ev]);
        assert((base + seq![start_ev] + ev_elem_data(dv)).push(end_ev) =~= base + ev_edge(
            source@,
            target@,
            dv,
        ));
    }
}

/// Append the declaration and the `<graphml>` root tag.
pub fn add_header(out: &mut Vec<XmlEvent>)
    ensures
        final(out).deep_view() == old(out).deep_view() + ev_header(),
{
    let ghost base = out.deep_view();
    out.push(XmlEvent::Decl);
    let mut attrs: Vec<(String, String)> = Vec::new();
    attrs.push(("xmlns".to_owned(), "http://graphml.graphdrawing.org/xmlns".to_owned()));
    attrs.push(("xmlns:xsi".to_owned(), "http://www.w3.org/2001/XMLSchema-instance".to_owned()));
    attrs.push(
        (
            "xsi:schemaLocation".to_owned(),
            "http://graphml.graphdrawing.org/xmlns http://graphml.graphdrawing.org/xmlns/1.0/graphml.xsd".to_owned(),
        ),
    );
    out.push(XmlEvent::Start { name: "graphml".to_owned(), attrs: attrs });
    proof {
        assert(out.deep_view() =~~= base + ev_header());
    }
}

/// Append one `<key>` declaration per registry entry, in entry order. The
/// registry's ids must be the sequentially assigned `d0`, `d1`, ..., so
/// that entry order is ascending numeric-id order, as the document format
/// asks.
pub fn add_keys(out: &mut Vec<XmlEvent>, keys: &KeyRegistry)
    requires
        reg_ids_sequential(keys.deep_view()),
    ensures
        final(out).deep_view() == old(out).deep_view() + ev_keys(keys.deep_view()),
{
    let ghost base = out.deep_view();
    let ghost kv = keys.deep_view();
    let n = keys.len();
    proof {
        assert(base + ev_keys(kv.take(0)) =~= base);
    }
    let mut i: usize = 0;
    while i < n
        invariant
            0 <= i <= n,
            n == keys@.len(),
            kv == keys.deep_view(),
            out.deep_view() == base + ev_keys(kv.take(i as int)),
        decreases n - i,
    {
        let mut attrs: Vec<(String, String)> = Vec::new();
        attrs.push(("id".to_owned(), keys[i].1.id.clone()));
        attrs.push(("for".to_owned(), keys[i].0.for_elem.value().to_owned()));
        attrs.push(("attr.name".to_owned(), keys[i].0.attr_name.clone()));
        attrs.push(("attr.type".to_owned(), keys[i].1.attr_type.value().to_owned()));
        proof {
            assert(attrs.deep_view() =~~= seq![
                ("id"@, kv[i as int].1.id),
                ("for"@, kv[i as int].0.elem.spec_value()),
                ("attr.name"@, kv[i as int].0.name),
                ("attr.type"@, kv[i as int].1.ty.spec_value()),
            ]);
        }
        out.push(XmlEvent::Empty { name: "key".to_owned(), attrs: attrs });
        proof {
            assert(kv.take(i + 1).drop_last() =~= kv.take(i as int));
            assert(kv.take(i + 1).last() == kv[i as int]);
            assert(out.deep_view() =~~= base + ev_keys(kv.take(i as int)) + seq![
                XmlEventV::Empty {
                    name: "key"@,
                    attrs: seq![
                        ("id"@, kv[i as int].1.id),
                        ("for"@, kv[i as int].0.elem.spec_value()),
                        ("attr.name"@, kv[i as int].0.name),
                        ("attr.type"@, kv[i as int].1.ty.spec_value()),
                    ],
                },
            ]);
            assert(base + ev_keys(kv.take(i as int)) + seq![
                XmlEventV::Empty {
                    name: "key"@,
                    attrs: seq![
                        ("id"@, kv[i as int].1.id),
                        ("for"@, kv[i as int].0.elem.spec_value()),
                        ("attr.name"@, kv[i as int].0.name),
                        ("attr.type"@, kv[i as int].1.ty.spec_value()),
                    ],
                },
            ] =~= base + ev_keys(kv.take(i + 1)));
        }
        i = i + 1;
    }
    proof {
        assert(kv.take(n as int) =~= kv);
    }
}

/// Append the closing tags of `<graph>` and `<graphml>`.
pub fn add_footer(out: &mut Vec<XmlEvent>)
    ensures
        final(out).deep_view() == old(out).deep_view() + ev_footer(),
{
    let ghost base = out.deep_view();
    out.push(XmlEvent::End { name: "graph".to_owned() });
    out.push(XmlEvent::End { name: "graphml".to_owned() });
    proof {
        assert(out.deep_view() =~~= base + ev_footer());
    }
}

} // verus!
