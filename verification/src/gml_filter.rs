//! The GML-to-GML cleanup pass: drops attribute lines whose value is empty
//! (`""`) or `NaN`, and unfolds a value that is a quote-wrapped encoded dict
//! into a bracketed sub-block, one line per entry and one line per list
//! element. Every other line passes through unchanged.

use vstd::prelude::*;
use crate::errors::ConvError;
use crate::json::enc_scalar;
use crate::json::encode_scalar;
use crate::json::json_decode;
use crate::json::spec_json_decode;
use crate::strutil::spec_split_kv;
use crate::strutil::spec_trim;
use crate::strutil::split_kv;
use crate::strutil::str_eq;
use crate::strutil::trim_str;
use crate::value::DictVal;
use crate::value::DictValV;
use crate::value::JsonTree;
use crate::value::JsonTreeV;
use crate::value::Scalar;
use crate::value::ScalarV;

verus! {

/// A value of the shape `"{...}"`: a quote-wrapped dict encoding.
pub open spec fn dict_shaped(v: Seq<char>) -> bool {
    v.len() >= 5 && v[0] == '"' && v[1] == '{' && v[v.len() - 2] == '}' && v[v.len() - 1] == '"'
}

/// One unfolded dict entry line: six spaces, the entry name, the scalar.
pub open spec fn unfold_entry(key: Seq<char>, s: ScalarV) -> Seq<char> {
    "      "@ + key + seq![' '] + enc_scalar(s)
}

/// The unfolded lines of one dict member.
pub open spec fn unfold_member(key: Seq<char>, v: DictValV) -> Seq<Seq<char>>
    decreases v,
{
    match v {
        DictValV::One(s) => seq![unfold_entry(key, s)],
        DictValV::Many(items) => Seq::new(items.len(), |k: int| unfold_entry(key, items[k])),
    }
}

/// The unfolded lines of a dict's members, in entry order.
pub open spec fn unfold_members(d: Seq<(Seq<char>, DictValV)>) -> Seq<Seq<char>>
    decreases d.len(),
{
    if d.len() == 0 {
        Seq::empty()
    } else {
        unfold_members(d.drop_last()) + unfold_member(d.last().0, d.last().1)
    }
}

/// The whole unfolded sub-block of one dict value.
pub open spec fn spec_lines_from_dict(d: Seq<(Seq<char>, DictValV)>, dict_key: Seq<char>) -> Seq<
    Seq<char>,
> {
    seq!["    "@ + dict_key + seq![' ', '[']] + unfold_members(d) + seq!["    ]"@]
}

/// The lines one input line contributes: a line without a name/value split
/// passes through; a dropped value contributes nothing; a dict-shaped value
/// unfolds, and one that does not decode as a dict is a parse error; any
/// other line passes through.
pub open spec fn filter_line(line: Seq<char>, pos: usize) -> Result<Seq<Seq<char>>, ConvError> {
    let t = spec_trim(line);
    match spec_split_kv(t) {
        Option::None => Result::Ok(seq![line]),
        Option::Some(p) => {
            if p.1 == "NaN"@ || p.1 == "\"\""@ {
                Result::Ok(Seq::empty())
            } else if dict_shaped(p.1) {
                match spec_json_decode(p.1.subrange(1, p.1.len() - 1)) {
                    Option::Some(JsonTreeV::Obj(d)) => Result::Ok(spec_lines_from_dict(d, p.0)),
                    _ => Result::Err(ConvError::Parse { pos }),
                }
            } else {
                Result::Ok(seq![line])
            }
        },
    }
}

/// The output lines for the input lines from `i` on, or the first error.
pub open spec fn filter_run(lines: Seq<Seq<char>>, i: int) -> Result<Seq<Seq<char>>, ConvError>
    decreases lines.len() - i,
    when 0 <= i <= lines.len()
{
    if i == lines.len() {
        Result::Ok(Seq::empty())
    } else {
        match filter_line(lines[i], (i + 1) as usize) {
            Result::Ok(ls) => match filter_run(lines, i + 1) {
                Result::Ok(rest) => Result::Ok(ls + rest),
                Result::Err(e) => Result::Err(e),
            },
            Result::Err(e) => Result::Err(e),
        }
    }
}

/// The whole cleanup pass over a document's lines.
pub open spec fn spec_gml_to_gml(lines: Seq<Seq<char>>) -> Result<Seq<Seq<char>>, ConvError> {
    filter_run(lines, 0)
}

/// Append one unfolded dict entry line: six spaces, the name, the scalar.
pub fn add_value_with_increment(return_values: &mut Vec<String>, key: &String, item: &Scalar)
    ensures
        final(return_values).deep_view() == old(return_values).deep_view() + seq![
            unfold_entry(key@, item@),
        ],
{
    let ghost base = return_values.deep_view();
    let rendered = encode_scalar(item);
    let mut line = String::new();
    line.append("      ");
    line.append(key.as_str());
    line.append(" ");
    line.append(rendered.as_str());
    proof {
        reveal_strlit(" ");
        assert(line@ =~= unfold_entry(key@, item@));
    }
    return_values.push(line);
    proof {
        assert(return_values.deep_view() =~~= base + seq![unfold_entry(key@, item@)]);
    }
}

/// Unfold a quote-wrapped encoded dict value into its sub-block lines;
/// `None` when the wrapped text does not decode as a dict.
pub fn get_lines_from_dict(value: &str, dict_key: &str) -> (r: Option<Vec<String>>)
    requires
        dict_shaped(value@),
    ensures
        r is Some <==> (spec_json_decode(value@.subrange(1, value@.len() - 1)) matches Some(t)
            && t is Obj),
        r matches Some(ls) ==> (match spec_json_decode(value@.subrange(1, value@.len() - 1)) {
            Option::Some(JsonTreeV::Obj(d)) => ls.deep_view() == spec_lines_from_dict(d, dict_key@),
            _ => false,
        }),
{
    let len = value.unicode_len();
    let inner = value.substring_char(1, len - 1);
    let tree = match json_decode(inner) {
        Some(t) => t,
        None => {
            return None;
        },
    };
    let d: Vec<(String, DictVal)> = match tree {
        JsonTree::Obj(d) => d,
        _ => {
            return None;
        },
    };
    let ghost dv = d.deep_view();
    let mut out: Vec<String> = Vec::new();
    let mut open_line = String::new();
    open_line.append("    ");
    open_line.append(dict_key);
    open_line.append(" [");
    proof {
        reveal_strlit("    ");
        reveal_strlit(" [");
        assert(open_line@ =~= "    "@ + dict_key@ + seq![' ', '[']);
    }
    out.push(open_line);
    let ghost mid = out.deep_view();
    proof {
        assert(mid =~~= seq!["    "@ + dict_key@ + seq![' ', '[']]);
    }
    let n = d.len();
    let mut k: usize = 0;
    while k < n
        invariant
            0 <= k <= n,
            n == d@.len(),
            dv == d.deep_view(),
            out.deep_view() == mid + unfold_members(dv.take(k as int)),
        decreases n - k,
    {
        match &d[k].1 {
            DictVal::One(s) => {
                add_value_with_increment(&mut out, &d[k].0, s);
                proof {
                    assert(dv.take(k + 1).drop_last() =~= dv.take(k as int));
                    assert(dv.take(k + 1).last() == dv[k as int]);
                    assert(unfold_member(dv[k as int].0, dv[k as int].1) =~= seq![
                        unfold_entry(dv[k as int].0, dv[k as int].1->One_0),
                    ]);
                    assert(out.deep_view() =~~= mid + unfold_members(dv.take(k + 1)));
                }
            },
            DictVal::Many(items) => {
                let ghost iv = items.deep_view();
                let ghost pre = out.deep_view();
                let m = items.len();
                let mut j: usize = 0;
                while j < m
                    invariant
                        0 <= j <= m,
                        m == items@.len(),
                        iv == items.deep_view(),
                        k < n,
                        dv == d.deep_view(),
                        dv[k as int].1 == DictValV::Many(iv),
                        out.deep_view() == pre + unfold_member(dv[k as int].0, dv[k as int].1).take(
                            j as int,
                        ),
                    decreases m - j,
                {
                    add_value_with_increment(&mut out, &d[k].0, &items[j]);
                    proof {
                        assert(unfold_member(dv[k as int].0, dv[k as int].1)[j as int]
                            == unfold_entry(dv[k as int].0, iv[j as int]));
                        assert((pre + unfold_member(dv[k as int].0, dv[k as int].1).take(
                            j as int,
                        )).push(unfold_entry(dv[k as int].0, iv[j as int])) =~= pre + unfold_member(
                            dv[k as int].0,
                            dv[k as int].1,
                        ).take(j + 1));
                        assert(out.deep_view() =~~= pre + unfold_member(
                            dv[k as int].0,
                            dv[k as int].1,
                        ).take(j + 1));
                    }
                    j = j + 1;
                }
                proof {
                    assert(unfold_member(dv[k as int].0, dv[k as int].1).take(m as int)
                        =~= unfold_member(dv[k as int].0, dv[k as int].1));
                    assert(dv.take(k + 1).drop_last() =~= dv.take(k as int));
                    assert(dv.take(k + 1).last() == dv[k as int]);
                    assert(out.deep_view() =~~= mid + unfold_members(dv.take(k + 1)));
                }
            },
        }
        k = k + 1;
    }
    let mut close_line = String::new();
    close_line.append("    ]");
    let ghost closev = close_line@;
    out.push(close_line);
    proof {
        assert(dv.take(n as int) =~= dv);
        assert(out.deep_view() =~~= (mid + unfold_members(dv)).push(closev));
        assert(closev =~~= "    ]"@);
        assert((mid + unfold_members(dv)).push(closev) =~= spec_lines_from_dict(dv, dict_key@));
    }
    Some(out)
}

/// Run the cleanup pass over a document's lines. The result is exactly
/// [`spec_gml_to_gml`] of the input lines.
pub fn gml_to_gml_lines(lines: &Vec<String>) -> (r: Result<Vec<String>, ConvError>)
    ensures
        r matches Ok(out) ==> spec_gml_to_gml(lines.deep_view()) == Result::<
            Seq<Seq<char>>,
            ConvError,
        >::Ok(out.deep_view()),
        r matches Err(e) ==> spec_gml_to_gml(lines.deep_view()) == Result::<
            Seq<Seq<char>>,
            ConvError,
        >::Err(e),
{
    let ghost lv = lines.deep_view();
    let mut out: Vec<String> = Vec::new();
    proof {
        assert(out.deep_view() =~= Seq::<Seq<char>>::empty());
        match filter_run(lv, 0) {
            Result::Ok(r0) => {
                assert(out.deep_view() + r0 =~= r0);
            },
            Result::Err(e) => {},
        }
    }
    let n = lines.len();
    let mut i: usize = 0;
    while i < n
        invariant
            0 <= i <= n,
            n == lines@.len(),
            lv == lines.deep_view(),
            filter_run(lv, 0) == (match filter_run(lv, i as int) {
                Result::<Seq<Seq<char>>, ConvError>::Ok(rest) => Result::<
                    Seq<Seq<char>>,
                    ConvError,
                >::Ok(out.deep_view() + rest),
                Result::<Seq<Seq<char>>, ConvError>::Err(e) => Result::<
                    Seq<Seq<char>>,
                    ConvError,
                >::Err(e),
            }),
        decreases n - i,
    {
        let ghost pre = out.deep_view();
        let line = &lines[i];
        let t = trim_str(line.as_str());
        proof {
            assert(lv[i as int] == lines[i as int]@);
        }
        match split_kv(t) {
            None => {
                out.push(line.clone());
                proof {
                    assert(out.deep_view() =~~= pre + seq![lv[i as int]]);
                }
            },
            Some(p) => {
                let (key, value) = p;
                if str_eq(value, "NaN") || str_eq(value, "\"\"") {
                    proof {
                        assert(out.deep_view() =~~= pre + Seq::<Seq<char>>::empty());
                    }
                } else {
                    let vlen = value.unicode_len();
                    let shaped = vlen >= 5 && value.get_char(0) == '"' && value.get_char(1) == '{'
                        && value.get_char(vlen - 2) == '}' && value.get_char(vlen - 1) == '"';
                    if shaped {
                        match get_lines_from_dict(value, key) {
                            Some(mut ls) => {
                                let ghost lsv = ls.deep_view();
                                out.append(&mut ls);
                                proof {
                                    assert(out.deep_view() =~~= pre + lsv);
                                }
                            },
                            None => {
                                proof {
                                    let e = ConvError::Parse { pos: (i + 1) as usize };
                                    assert(filter_line(lv[i as int], (i + 1) as usize)
                                        == Result::<Seq<Seq<char>>, ConvError>::Err(e));
                                    assert(filter_run(lv, i as int) == Result::<
                                        Seq<Seq<char>>,
                                        ConvError,
                                    >::Err(e));
                                }
                                return Err(ConvError::Parse { pos: i + 1 });
                            },
                        }
                    } else {
                        out.push(line.clone());
                        proof {
                            assert(out.deep_view() =~~= pre + seq![lv[i as int]]);
                        }
                    }
                }
            },
        }
        proof {
            let li = filter_line(lv[i as int], (i + 1) as usize);
            match filter_run(lv, i + 1) {
                Result::Ok(rest) => {
                    assert(filter_run(lv, i as int) == Result::<Seq<Seq<char>>, ConvError>::Ok(
                        li->Ok_0 + rest,
                    ));
                    assert(pre + (li->Ok_0 + rest) =~= out.deep_view() + rest);
                },
                Result::Err(e) => {
                    assert(filter_run(lv, i as int) == Result::<Seq<Seq<char>>, ConvError>::Err(e));
                },
            }
        }
        i = i + 1;
    }
    proof {
        assert(filter_run(lv, n as int) == Result::<Seq<Seq<char>>, ConvError>::Ok(
            Seq::<Seq<char>>::empty(),
        ));
        assert(out.deep_view() + Seq::<Seq<char>>::empty() =~= out.deep_view());
    }
    Ok(out)
}

} // verus!
