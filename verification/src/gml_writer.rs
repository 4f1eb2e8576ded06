//! The GML writer: renders graph, node and edge records back into
//! line-oriented GML text. A value that holds an encoded dict or list is
//! unpacked: a dict becomes a bracketed sub-block, a list becomes one line
//! per element under the same name, mirroring how the GML parser rebuilds
//! them from repetition and sub-blocks.
//!
//! A graph whose directedness was never stated is written `directed 0`.

use vstd::prelude::*;
use crate::json::enc_scalar;
use crate::json::encode_scalar;
use crate::json::json_decode;
use crate::json::spec_json_decode;
use crate::numeric::spec_dec_digits;
use crate::numeric::u64_to_string;
use crate::value::DictVal;
use crate::value::DictValV;
use crate::value::JsonTree;
use crate::value::JsonTreeV;
use crate::value::Scalar;
use crate::value::ScalarV;

verus! {

/// One rendered scalar line inside a dict sub-block: eight spaces, the
/// entry name, a space, the scalar.
pub open spec fn line_dict_entry(key: Seq<char>, s: ScalarV) -> Seq<char> {
    "        "@ + key + seq![' '] + enc_scalar(s)
}

/// The lines of one dict member: one line for a scalar, one line per
/// element for a list.
pub open spec fn lines_member(key: Seq<char>, v: DictValV) -> Seq<Seq<char>>
    decreases v,
{
    match v {
        DictValV::One(s) => seq![line_dict_entry(key, s)],
        DictValV::Many(items) => Seq::new(items.len(), |k: int| line_dict_entry(key, items[k])),
    }
}

/// The lines of a dict's members, in entry order.
pub open spec fn lines_members(d: Seq<(Seq<char>, DictValV)>) -> Seq<Seq<char>>
    decreases d.len(),
{
    if d.len() == 0 {
        Seq::empty()
    } else {
        lines_members(d.drop_last()) + lines_member(d.last().0, d.last().1)
    }
}

/// The lines of one list element at element indent.
pub open spec fn lines_arr_items(items: Seq<ScalarV>, label: Seq<char>) -> Seq<Seq<char>> {
    Seq::new(items.len(), |k: int| "    "@ + label + seq![' '] + enc_scalar(items[k]))
}

/// The lines a decoded value unpacks into: a non-empty list as repeated
/// `label element` lines; an empty list as the literal `[]` value; a dict
/// as a bracketed sub-block; a bare scalar as one `label scalar` line.
pub open spec fn lines_value(t: JsonTreeV, label: Seq<char>, indent: Seq<char>) -> Seq<Seq<char>> {
    match t {
        JsonTreeV::Arr(items) => {
            if items.len() == 0 {
                seq![indent + label + seq![' ', '[', ']']]
            } else {
                lines_arr_items(items, label)
            }
        },
        JsonTreeV::Obj(members) => {
            seq!["    "@ + label + seq![' ', '[']] + lines_members(members) + seq![
                "    "@ + seq![']'],
            ]
        },
        JsonTreeV::Prim(s) => seq![indent + label + seq![' '] + enc_scalar(s)],
    }
}

/// A value both quote-wrapped and bracket- or brace-shaped inside the
/// quotes has the quotes removed before decoding.
pub open spec fn spec_unwrap_encoded(v: Seq<char>) -> Seq<char> {
    if v.len() >= 2 && v[0] == '"' && ((v[1] == '[' && v[v.len() - 2] == ']') || (v[1] == '{'
        && v[v.len() - 2] == '}')) && v[v.len() - 1] == '"' {
        v.subrange(1, v.len() - 1)
    } else {
        v
    }
}

/// The lines of one data item: the value is unwrapped and decoded; a value
/// that decodes unpacks per [`lines_value`], any other is written verbatim
/// as `indent key value`.
pub open spec fn lines_data_item(key: Seq<char>, value: Seq<char>, indent: Seq<char>) -> Seq<
    Seq<char>,
> {
    let dv = spec_unwrap_encoded(value);
    match spec_json_decode(dv) {
        Option::Some(t) => lines_value(t, key, indent),
        Option::None => seq![indent + key + seq![' '] + dv],
    }
}

/// The lines of an element's data items, in order.
pub open spec fn lines_data_items(data: Seq<(Seq<char>, Seq<char>)>, indent: Seq<char>) -> Seq<
    Seq<char>,
>
    decreases data.len(),
{
    if data.len() == 0 {
        Seq::empty()
    } else {
        lines_data_items(data.drop_last(), indent) + lines_data_item(
            data.last().0,
            data.last().1,
            indent,
        )
    }
}

/// The opening lines of the graph: `graph [`, the directedness (0 when it
/// was never stated), and the graph's own data items. Closed at the end of
/// the document by [`write_graph_end`].
pub open spec fn lines_graph_start(directed: Option<bool>, data: Seq<(Seq<char>, Seq<char>)>)
    -> Seq<Seq<char>> {
    let dline = if directed == Option::Some(true) {
        "  directed 1"@
    } else {
        "  directed 0"@
    };
    seq!["graph ["@, dline] + lines_data_items(data, "  "@)
}

/// The lines of one node block.
pub open spec fn lines_node(id: int, data: Seq<(Seq<char>, Seq<char>)>) -> Seq<Seq<char>> {
    seq!["  node ["@, "    id "@ + spec_dec_digits(id)] + lines_data_items(data, "    "@) + seq![
        "  ]"@,
    ]
}

/// The lines of one edge block.
pub open spec fn lines_edge(source: int, target: int, data: Seq<(Seq<char>, Seq<char>)>) -> Seq<
    Seq<char>,
> {
    seq![
        "  edge ["@,
        "    source "@ + spec_dec_digits(source),
        "    target "@ + spec_dec_digits(target),
    ] + lines_data_items(data, "    "@) + seq!["  ]"@]
}

/// Render `indent label value` as one line.
fn render_line(indent: &str, label: &str, value: &str) -> (r: String)
    ensures
        r@ == indent@ + label@ + seq![' '] + value@,
{
    let mut out = String::new();
    out.append(indent);
    out.append(label);
    out.append(" ");
    out.append(value);
    proof {
        reveal_strlit(" ");
        assert(out@ =~= indent@ + label@ + seq![' '] + value@);
    }
    out
}

/// Render one dict entry line: eight spaces, the name, the scalar.
pub fn get_value_with_increment(key: &str, item: &Scalar) -> (r: String)
    ensures
        r@ == line_dict_entry(key@, item@),
{
    let rendered = encode_scalar(item);
    render_line("        ", key, rendered.as_str())
}

/// Append the lines one decoded value unpacks into.
pub fn write_value(out: &mut Vec<String>, json: &JsonTree, label: &str, indent: &str)
    ensures
        final(out).deep_view() == old(out).deep_view() + lines_value(json@, label@, indent@),
{
    let ghost base = out.deep_view();
    match json {
        JsonTree::Arr(items) => {
            if items.is_empty() {
                let mut line = String::new();
                line.append(indent);
                line.append(label);
                line.append(" []");
                proof {
                    reveal_strlit(" []");
                    assert(line@ =~= indent@ + label@ + seq![' ', '[', ']']);
                }
                out.push(line);
                proof {
                    assert(out.deep_view() =~~= base + lines_value(json@, label@, indent@));
                }
            } else {
                let ghost iv = items.deep_view();
                let n = items.len();
                let mut k: usize = 0;
                while k < n
                    invariant
                        0 <= k <= n,
                        n == items@.len(),
                        iv == items.deep_view(),
                        out.deep_view() == base + lines_arr_items(iv, label@).take(k as int),
                    decreases n - k,
                {
                    let rendered = encode_scalar(&items[k]);
                    let line = render_line("    ", label, rendered.as_str());
                    let ghost linev = line@;
                    out.push(line);
                    proof {
                        assert(lines_arr_items(iv, label@)[k as int] == "    "@ + label@ + seq![' ']
                            + enc_scalar(iv[k as int]));
                        assert(linev == lines_arr_items(iv, label@)[k as int]);
                        assert(out.deep_view() =~~= (base + lines_arr_items(iv, label@).take(
                            k as int,
                        )).push(linev));
                        assert((base + lines_arr_items(iv, label@).take(k as int)).push(linev)
                            =~= base + lines_arr_items(iv, label@).take(k + 1));
                    }
                    k = k + 1;
                }
                proof {
                    assert(lines_arr_items(iv, label@).take(n as int) =~= lines_arr_items(
                        iv,
                        label@,
                    ));
                    assert(out.deep_view() =~~= base + lines_value(json@, label@, indent@));
                }
            }
        },
        JsonTree::Obj(members) => {
            let mut open_line = String::new();
            open_line.append("    ");
            open_line.append(label);
            open_line.append(" [");
            proof {
                reveal_strlit(" [");
                reveal_strlit("    ");
                assert(open_line@ =~= "    "@ + label@ + seq![' ', '[']);
            }
            out.push(open_line);
            let ghost mid = out.deep_view();
            let ghost mv = members.deep_view();
            proof {
                assert(mid =~~= base + seq!["    "@ + label@ + seq![' ', '[']]);
            }
            let n = members.len();
            let mut k: usize = 0;
            while k < n
                invariant
                    0 <= k <= n,
                    n == members@.len(),
                    mv == members.deep_view(),
                    out.deep_view() == mid + lines_members(mv.take(k as int)),
                decreases n - k,
            {
                match &members[k].1 {
                    DictVal::One(s) => {
                        let line = get_value_with_increment(members[k].0.as_str(), s);
                        let ghost linev = line@;
                        out.push(line);
                        proof {
                            assert(mv.take(k + 1).drop_last() =~= mv.take(k as int));
                            assert(mv.take(k + 1).last() == mv[k as int]);
                            assert(lines_member(mv[k as int].0, mv[k as int].1) =~= seq![
                                line_dict_entry(mv[k as int].0, mv[k as int].1->One_0),
                            ]);
                            assert(linev == line_dict_entry(mv[k as int].0, mv[k as int].1->One_0));
                            assert(out.deep_view() =~~= (mid + lines_members(mv.take(k as int))).push(
                                linev,
                            ));
                            assert((mid + lines_members(mv.take(k as int))).push(linev) =~= mid
                                + lines_members(mv.take(k + 1)));
                        }
                    },
                    DictVal::Many(items) => {
                        let ghost iv = items.deep_view();
                        let ghost pre = out.deep_view();
                        let m = items.len();
                        let mut j: usize = 0;
                        while j < m
                            invariant
                                0 <= j <= m,
                                m == items@.len(),
                                iv == items.deep_view(),
                                k < n,
                                mv == members.deep_view(),
                                mv[k as int].1 == DictValV::Many(iv),
                                out.deep_view() == pre + lines_member(
                                    mv[k as int].0,
                                    mv[k as int].1,
                                ).take(j as int),
                            decreases m - j,
                        {
                            let line = get_value_with_increment(members[k].0.as_str(), &items[j]);
                            let ghost linev = line@;
                            out.push(line);
                            proof {
                                assert(lines_member(mv[k as int].0, mv[k as int].1)[j as int]
                                    == line_dict_entry(mv[k as int].0, iv[j as int]));
                                assert(linev == lines_member(mv[k as int].0, mv[k as int].1)[j as int]);
                                assert(out.deep_view() =~~= (pre + lines_member(
                                    mv[k as int].0,
                                    mv[k as int].1,
                                ).take(j as int)).push(linev));
                                assert((pre + lines_member(mv[k as int].0, mv[k as int].1).take(
                                    j as int,
                                )).push(linev) =~= pre + lines_member(
                                    mv[k as int].0,
                                    mv[k as int].1,
                                ).take(j + 1));
                            }
                            j = j + 1;
                        }
                        proof {
                            assert(lines_member(mv[k as int].0, mv[k as int].1).take(m as int)
                                =~= lines_member(mv[k as int].0, mv[k as int].1));
                            assert(mv.take(k + 1).drop_last() =~= mv.take(k as int));
                            assert(mv.take(k + 1).last() == mv[k as int]);
                            assert(out.deep_view() =~~= mid + lines_members(mv.take(k + 1)));
                        }
                    },
                }
                k = k + 1;
            }
            let mut close_line = String::new();
            close_line.append("    ]");
            let ghost closev = close_line@;
            out.push(close_line);
            proof {
                reveal_strlit("    ]");
                reveal_strlit("    ");
                assert(closev =~= "    "@ + seq![']']);
                assert(mv.take(n as int) =~= mv);
                assert(out.deep_view() =~~= (mid + lines_members(mv)).push(closev));
                assert(lines_value(json@, label@, indent@) =~= seq!["    "@ + label@ + seq![' ', '[']]
                    + lines_members(mv) + seq!["    "@ + seq![']']]);
                assert((mid + lines_members(mv)).push(closev) =~= base + lines_value(
                    json@,
                    label@,
                    indent@,
                ));
            }
        },
        JsonTree::Prim(s) => {
            let rendered = encode_scalar(s);
            let line = render_line(indent, label, rendered.as_str());
            out.push(line);
            proof {
                assert(out.deep_view() =~~= base + lines_value(json@, label@, indent@));
            }
        },
    }
}

/// Append the lines of one element's data items, unpacking encoded dict and
/// list values.
pub fn write_data_items(out: &mut Vec<String>, data: &Vec<(String, String)>, indent: &str)
    ensures
        final(out).deep_view() == old(out).deep_view() + lines_data_items(
            data.deep_view(),
            indent@,
        ),
{
    let ghost base = out.deep_view();
    let ghost dv = data.deep_view();
    proof {
        assert(base + lines_data_items(dv.take(0), indent@) =~= base);
    }
    let n = data.len();
    let mut i: usize = 0;
    while i < n
        invariant
            0 <= i <= n,
            n == data@.len(),
            dv == data.deep_view(),
            out.deep_view() == base + lines_data_items(dv.take(i as int), indent@),
        decreases n - i,
    {
        let ghost pre = out.deep_view();
        let key = &data[i].0;
        let value = &data[i].1;
        let vlen = value.as_str().unicode_len();
        let shaped = vlen >= 2 && value.as_str().get_char(0) == '"' && value.as_str().get_char(
            vlen - 1,
        ) == '"' && {
            let c1 = value.as_str().get_char(1);
            let c2 = value.as_str().get_char(vlen - 2);
            (c1 == '[' && c2 == ']') || (c1 == '{' && c2 == '}')
        };
        let unwrapped: &str = if shaped {
            value.as_str().substring_char(1, vlen - 1)
        } else {
            value.as_str()
        };
        proof {
            assert(unwrapped@ == spec_unwrap_encoded(value@));
        }
        match json_decode(unwrapped) {
            Some(tree) => {
                write_value(out, &tree, key.as_str(), indent);
            },
            None => {
                let line = render_line(indent, key.as_str(), unwrapped);
                out.push(line);
            },
        }
        proof {
            assert(dv.take(i + 1).drop_last() =~= dv.take(i as int));
            assert(dv.take(i + 1).last() == dv[i as int]);
            assert(out.deep_view() =~~= pre + lines_data_item(dv[i as int].0, dv[i as int].1, indent@));
            assert(pre + lines_data_item(dv[i as int].0, dv[i as int].1, indent@) =~= base
                + lines_data_items(dv.take(i + 1), indent@));
        }
        i = i + 1;
    }
    proof {
        assert(dv.take(n as int) =~= dv);
    }
}

/// Append the opening lines of the graph.
pub fn write_graph_start(out: &mut Vec<String>, directed: Option<bool>, data: &Vec<
    (String, String),
>)
    ensures
        final(out).deep_view() == old(out).deep_view() + lines_graph_start(
            directed,
            data.deep_view(),
        ),
{
    let ghost base = out.deep_view();
    let mut open_line = String::new();
    open_line.append("graph [");
    out.push(open_line);
    let mut dline = String::new();
    match directed {
        Some(true) => {
            dline.append("  directed 1");
        },
        _ => {
            dline.append("  directed 0");
        },
    }
    out.push(dline);
    proof {
        assert(out.deep_view() =~~= base + seq![
            "graph ["@,
            if directed == Option::Some(true) {
                "  directed 1"@
            } else {
                "  directed 0"@
            },
        ]);
    }
    write_data_items(out, data, "  ");
    proof {
        assert(out.deep_view() =~~= base + lines_graph_start(directed, data.deep_view()));
    }
}

/// Append the document's closing bracket.
pub fn write_graph_end(out: &mut Vec<String>)
    ensures
        final(out).deep_view() == old(out).deep_view() + seq!["]"@],
{
    let mut line = String::new();
    line.append("]");
    let ghost base = out.deep_view();
    out.push(line);
    proof {
        assert(out.deep_view() =~~= base + seq!["]"@]);
    }
}

/// Append one node block.
pub fn write_node(out: &mut Vec<String>, id: u32, data: &Vec<(String, String)>)
    ensures
        final(out).deep_view() == old(out).deep_view() + lines_node(id as int, data.deep_view()),
{
    let ghost base = out.deep_view();
    let mut open_line = String::new();
    open_line.append("  node [");
    out.push(open_line);
    let mut id_line = String::new();
    id_line.append("    id ");
    let digits = u64_to_string(id as u64);
    id_line.append(digits.as_str());
    proof {
        assert(id_line@ =~= "    id "@ + spec_dec_digits(id as int));
    }
    out.push(id_line);
    proof {
        assert(out.deep_view() =~~= base + seq![
            "  node ["@,
            "    id "@ + spec_dec_digits(id as int),
        ]);
    }
    write_data_items(out, data, "    ");
    let mut close_line = String::new();
    close_line.append("  ]");
    out.push(close_line);
    proof {
        assert(out.deep_view() =~~= (base + seq![
            "  node ["@,
            "    id "@ + spec_dec_digits(id as int),
        ] + lines_data_items(data.deep_view(), "    "@)).push("  ]"@));
        assert(lines_node(id as int, data.deep_view()) =~= seq![
            "  node ["@,
            "    id "@ + spec_dec_digits(id as int),
        ] + lines_data_items(data.deep_view(), "    "@) + seq!["  ]"@]);
        assert(out.deep_view() =~~= base + lines_node(id as int, data.deep_view()));
    }
}

/// Append one edge block.
pub fn write_edge(out: &mut Vec<String>, source: u32, target: u32, data: &Vec<(String, String)>)
    ensures
        final(out).deep_view() == old(out).deep_view() + lines_edge(
            source as int,
            target as int,
            data.deep_view(),
        ),
{
    let ghost base = out.deep_view();
    let mut open_line = String::new();
    open_line.append("  edge [");
    out.push(open_line);
    let mut s_line = String::new();
    s_line.append("    source ");
    let s_digits = u64_to_string(source as u64);
    s_line.append(s_digits.as_str());
    proof {
        assert(s_line@ =~= "    source "@ + spec_dec_digits(source as int));
    }
    out.push(s_line);
    let mut t_line = String::new();
    t_line.append("    target ");
    let t_digits = u64_to_string(target as u64);
    t_line.append(t_digits.as_str());
    proof {
        assert(t_line@ =~= "    target "@ + spec_dec_digits(target as int));
    }
    out.push(t_line);
    proof {
        assert(out.deep_view() =~~= base + seq![
            "  edge ["@,
            "    source "@ + spec_dec_digits(source as int),
            "    target "@ + spec_dec_digits(target as int),
        ]);
    }
    write_data_items(out, data, "    ");
    let mut close_line = String::new();
    close_line.append("  ]");
    out.push(close_line);
    proof {
        assert(out.deep_view() =~~= (base + seq![
            "  edge ["@,
            "    source "@ + spec_dec_digits(source as int),
            "    target "@ + spec_dec_digits(target as int),
        ] + lines_data_items(data.deep_view(), "    "@)).push("  ]"@));
        assert(lines_edge(source as int, target as int, data.deep_view()) =~= seq![
            "  edge ["@,
            "    source "@ + spec_dec_digits(source as int),
            "    target "@ + spec_dec_digits(target as int),
        ] + lines_data_items(data.deep_view(), "    "@) + seq!["  ]"@]);
        assert(out.deep_view() =~~= base + lines_edge(
            source as int,
            target as int,
            data.deep_view(),
        ));
    }
}

} // verus!
