//! The dict/list value encoding shared by both conversion directions.
//! GraphML has no nested-value syntax, so a GML sub-block or repeated-key
//! list crosses into GraphML as one string: a brace-delimited dict of
//! `"key":value` members or a bracket-delimited list, numbers as their
//! lexemes, text quoted with `"` and `\` escaped by a backslash. The decoder
//! is the exact inverse on everything the encoder can produce.

use vstd::prelude::*;
use crate::numeric::is_json_num;
use crate::numeric::is_digit_char;
use crate::numeric::json_num;
use crate::strutil::skip_ws;
use crate::strutil::ws_run_end;
use crate::value::DictVal;
use crate::value::DictValV;
use crate::value::JsonTree;
use crate::value::JsonTreeV;
use crate::value::Scalar;
use crate::value::ScalarV;
use crate::value::scalar_wf;
use crate::value::scalars_wf;
use crate::value::dictval_wf;
use crate::value::dict_wf;

verus! {

/// Text with `"` and `\` preceded by a backslash.
pub open spec fn spec_json_escape(s: Seq<char>) -> Seq<char>
    decreases s.len(),
{
    if s.len() == 0 {
        Seq::empty()
    } else {
        let head: Seq<char> = if s.first() == '"' || s.first() == '\\' {
            seq!['\\', s.first()]
        } else {
            seq![s.first()]
        };
        head + spec_json_escape(s.drop_first())
    }
}

/// Escape `"` and `\` with a backslash.
pub fn json_escape(s: &str) -> (r: String)
    ensures
        r@ == spec_json_escape(s@),
{
    let len = s.unicode_len();
    let mut out = String::new();
    proof {
        assert(s@.skip(0) =~= s@);
        assert(out@ + spec_json_escape(s@) =~= spec_json_escape(s@));
    }
    let mut i: usize = 0;
    while i < len
        invariant
            0 <= i <= len,
            len == s@.len(),
            out@ + spec_json_escape(s@.skip(i as int)) == spec_json_escape(s@),
        decreases len - i,
    {
        let ghost pre = out@;
        let c = s.get_char(i);
        if c == '"' || c == '\\' {
            out.append("\\");
            proof {
                reveal_strlit("\\");
            }
        }
        out.append(s.substring_char(i, i + 1));
        proof {
            let tail = s@.skip(i as int);
            assert(tail.first() == s@[i as int]);
            assert(tail.drop_first() =~= s@.skip(i + 1));
            if c == '"' || c == '\\' {
                assert(out@ =~= pre + seq!['\\', s@[i as int]]);
                assert(pre + (seq!['\\', s@[i as int]] + spec_json_escape(s@.skip(i + 1))) =~= out@
                    + spec_json_escape(s@.skip(i + 1)));
            } else {
                assert(out@ =~= pre + seq![s@[i as int]]);
                assert(pre + (seq![s@[i as int]] + spec_json_escape(s@.skip(i + 1))) =~= out@
                    + spec_json_escape(s@.skip(i + 1)));
            }
        }
        i = i + 1;
    }
    proof {
        assert(s@.skip(len as int) =~= Seq::<char>::empty());
        assert(out@ + Seq::<char>::empty() =~= out@);
    }
    out
}

/// The inverse of [`spec_json_escape`], from position `i` on: `None` when a
/// raw quote appears or a backslash precedes anything but `"` or `\`.
pub open spec fn spec_unesc_from(s: Seq<char>, i: int) -> Option<Seq<char>>
    decreases s.len() - i,
    when 0 <= i <= s.len()
{
    if i == s.len() {
        Option::Some(Seq::empty())
    } else if s[i] == '\\' {
        if i + 1 < s.len() && (s[i + 1] == '"' || s[i + 1] == '\\') {
            match spec_unesc_from(s, i + 2) {
                Option::Some(t) => Option::Some(seq![s[i + 1]] + t),
                Option::None => Option::None,
            }
        } else {
            Option::None
        }
    } else if s[i] == '"' {
        Option::None
    } else {
        match spec_unesc_from(s, i + 1) {
            Option::Some(t) => Option::Some(seq![s[i]] + t),
            Option::None => Option::None,
        }
    }
}

/// The unescaped form of a whole sequence.
pub open spec fn spec_json_unescape(s: Seq<char>) -> Option<Seq<char>> {
    spec_unesc_from(s, 0)
}

fn unesc_rec(s: &str, i: usize) -> (r: Option<String>)
    requires
        i <= s@.len(),
    ensures
        r is Some <==> spec_unesc_from(s@, i as int) is Some,
        r matches Some(t) ==> spec_unesc_from(s@, i as int) == Some(t@),
    decreases s@.len() - i,
{
    let len = s.unicode_len();
    if i == len {
        return Some(String::new());
    }
    let c = s.get_char(i);
    if c == '\\' {
        if i + 1 < len {
            let c2 = s.get_char(i + 1);
            if c2 == '"' || c2 == '\\' {
                match unesc_rec(s, i + 2) {
                    Some(t) => {
                        let head = s.substring_char(i + 1, i + 2).to_owned();
                        let r = head.concat(t.as_str());
                        proof {
                            assert(r@ =~= seq![s@[i + 1]] + t@);
                        }
                        Some(r)
                    },
                    None => None,
                }
            } else {
                None
            }
        } else {
            None
        }
    } else if c == '"' {
        None
    } else {
        match unesc_rec(s, i + 1) {
            Some(t) => {
                let head = s.substring_char(i, i + 1).to_owned();
                let r = head.concat(t.as_str());
                proof {
                    assert(r@ =~= seq![s@[i as int]] + t@);
                }
                Some(r)
            },
            None => None,
        }
    }
}

/// Undo [`json_escape`]; `None` when the text is not a valid escaped form.
pub fn json_unescape(s: &str) -> (r: Option<String>)
    ensures
        r is Some <==> spec_json_unescape(s@) is Some,
        r matches Some(t) ==> spec_json_unescape(s@) == Some(t@),
{
    unesc_rec(s, 0)
}

/// How a raw GML token inside a nested block reads as a scalar: a token in
/// the number grammar is a number; a quoted token with well-formed escapes
/// is its unescaped text; anything else is taken as text verbatim.
pub open spec fn spec_scalar_of_token(v: Seq<char>) -> ScalarV {
    if is_json_num(v) {
        ScalarV::Num(v)
    } else if v.len() >= 2 && v.first() == '"' && v.last() == '"' && spec_json_unescape(
        v.subrange(1, v.len() - 1),
    ) is Some {
        ScalarV::Txt(spec_json_unescape(v.subrange(1, v.len() - 1)).unwrap())
    } else {
        ScalarV::Txt(v)
    }
}

/// Read a raw GML token as a scalar.
pub fn scalar_of_token(v: &str) -> (r: Scalar)
    ensures
        r@ == spec_scalar_of_token(v@),
{
    if json_num(v) {
        return Scalar::Num(v.to_owned());
    }
    let len = v.unicode_len();
    if len >= 2 && v.get_char(0) == '"' && v.get_char(len - 1) == '"' {
        let inner = v.substring_char(1, len - 1);
        match json_unescape(inner) {
            Some(t) => {
                return Scalar::Txt(t);
            },
            None => {
                return Scalar::Txt(v.to_owned());
            },
        }
    }
    Scalar::Txt(v.to_owned())
}

/// The encoding of one scalar: a number lexeme verbatim, text quoted and
/// escaped.
pub open spec fn enc_scalar(v: ScalarV) -> Seq<char> {
    match v {
        ScalarV::Num(n) => n,
        ScalarV::Txt(t) => seq!['"'] + spec_json_escape(t) + seq!['"'],
    }
}

/// Scalars joined by commas.
pub open spec fn enc_scalars(vs: Seq<ScalarV>) -> Seq<char>
    decreases vs.len(),
{
    if vs.len() == 0 {
        Seq::empty()
    } else if vs.len() == 1 {
        enc_scalar(vs[0])
    } else {
        enc_scalars(vs.drop_last()) + seq![','] + enc_scalar(vs.last())
    }
}

/// A list in brackets.
pub open spec fn enc_arr(vs: Seq<ScalarV>) -> Seq<char> {
    seq!['['] + enc_scalars(vs) + seq![']']
}

/// A dict member's value: a scalar, or a list.
pub open spec fn enc_dictval(v: DictValV) -> Seq<char> {
    match v {
        DictValV::One(s) => enc_scalar(s),
        DictValV::Many(vs) => enc_arr(vs),
    }
}

/// One dict member: the quoted key, a colon, the value.
pub open spec fn enc_member(e: (Seq<char>, DictValV)) -> Seq<char> {
    seq!['"'] + spec_json_escape(e.0) + seq!['"', ':'] + enc_dictval(e.1)
}

/// Members joined by commas.
pub open spec fn enc_members(d: Seq<(Seq<char>, DictValV)>) -> Seq<char>
    decreases d.len(),
{
    if d.len() == 0 {
        Seq::empty()
    } else if d.len() == 1 {
        enc_member(d[0])
    } else {
        enc_members(d.drop_last()) + seq![','] + enc_member(d.last())
    }
}

/// A dict in braces.
pub open spec fn enc_dict(d: Seq<(Seq<char>, DictValV)>) -> Seq<char> {
    seq!['{'] + enc_members(d) + seq!['}']
}

/// The encoding of a whole decoded tree.
pub open spec fn enc_tree(t: JsonTreeV) -> Seq<char> {
    match t {
        JsonTreeV::Obj(d) => enc_dict(d),
        JsonTreeV::Arr(vs) => enc_arr(vs),
        JsonTreeV::Prim(s) => enc_scalar(s),
    }
}

/// Render one scalar.
pub fn encode_scalar(v: &Scalar) -> (r: String)
    ensures
        r@ == enc_scalar(v@),
{
    match v {
        Scalar::Num(n) => n.clone(),
        Scalar::Txt(t) => {
            let mut out = String::new();
            out.append("\"");
            let esc = json_escape(t.as_str());
            out.append(esc.as_str());
            out.append("\"");
            proof {
                reveal_strlit("\"");
                assert(out@ =~= enc_scalar(v@));
            }
            out
        },
    }
}

/// Render scalars joined by commas.
fn encode_scalars(vs: &Vec<Scalar>) -> (r: String)
    ensures
        r@ == enc_scalars(vs.deep_view()),
{
    let ghost vv = vs.deep_view();
    let mut out = String::new();
    let n = vs.len();
    let mut i: usize = 0;
    while i < n
        invariant
            0 <= i <= n,
            n == vs@.len(),
            vv == vs.deep_view(),
            out@ == enc_scalars(vv.take(i as int)),
        decreases n - i,
    {
        let ghost pre = out@;
        if i > 0 {
            out.append(",");
            proof {
                reveal_strlit(",");
            }
        }
        let piece = encode_scalar(&vs[i]);
        out.append(piece.as_str());
        proof {
            assert(vv.take(i + 1).drop_last() =~= vv.take(i as int));
            assert(vv.take(i + 1).last() == vv[i as int]);
            if i > 0 {
                assert(out@ =~= enc_scalars(vv.take(i as int)) + seq![','] + enc_scalar(
                    vv[i as int],
                ));
            } else {
                assert(vv.take(1) =~= seq![vv[0]]);
                assert(out@ =~= enc_scalar(vv[0]));
            }
        }
        i = i + 1;
    }
    proof {
        assert(vv.take(n as int) =~= vv);
    }
    out
}

/// Render a list in brackets.
pub fn encode_arr(vs: &Vec<Scalar>) -> (r: String)
    ensures
        r@ == enc_arr(vs.deep_view()),
{
    let mut out = String::new();
    out.append("[");
    let body = encode_scalars(vs);
    out.append(body.as_str());
    out.append("]");
    proof {
        reveal_strlit("[");
        reveal_strlit("]");
        assert(out@ =~= enc_arr(vs.deep_view()));
    }
    out
}

fn encode_dictval(v: &DictVal) -> (r: String)
    ensures
        r@ == enc_dictval(v@),
{
    match v {
        DictVal::One(s) => encode_scalar(s),
        DictVal::Many(vs) => encode_arr(vs),
    }
}

/// Render a dict in braces, members in entry order.
pub fn encode_dict(d: &Vec<(String, DictVal)>) -> (r: String)
    ensures
        r@ == enc_dict(d.deep_view()),
{
    let ghost dv = d.deep_view();
    let mut out = String::new();
    out.append("{");
    proof {
        reveal_strlit("{");
        reveal_strlit("}");
        reveal_strlit(",");
        reveal_strlit("\"");
        reveal_strlit("\":");
        assert(out@ =~= seq!['{'] + enc_members(dv.take(0)));
    }
    let n = d.len();
    let mut i: usize = 0;
    while i < n
        invariant
            0 <= i <= n,
            n == d@.len(),
            dv == d.deep_view(),
            out@ == seq!['{'] + enc_members(dv.take(i as int)),
        decreases n - i,
    {
        let ghost pre = out@;
        if i > 0 {
            out.append(",");
        }
        out.append("\"");
        let esc = json_escape(d[i].0.as_str());
        out.append(esc.as_str());
        out.append("\":");
        let piece = encode_dictval(&d[i].1);
        out.append(piece.as_str());
        proof {
            reveal_strlit(",");
            reveal_strlit("\"");
            reveal_strlit("\":");
            assert(dv.take(i + 1).drop_last() =~= dv.take(i as int));
            assert(dv.take(i + 1).last() == dv[i as int]);
            assert(enc_member(dv[i as int]) =~= seq!['"'] + spec_json_escape(dv[i as int].0) + seq![
                '"',
                ':',
            ] + enc_dictval(dv[i as int].1));
            if i > 0 {
                assert(out@ =~= seq!['{'] + (enc_members(dv.take(i as int)) + seq![','] + enc_member(
                    dv[i as int],
                )));
            } else {
                assert(dv.take(1) =~= seq![dv[0]]);
                assert(out@ =~= seq!['{'] + enc_member(dv[0]));
            }
        }
        i = i + 1;
    }
    out.append("}");
    proof {
        reveal_strlit("}");
        assert(dv.take(n as int) =~= dv);
        assert(out@ =~= enc_dict(dv));
    }
    out
}

/// A character that can appear in a number token.
pub open spec fn is_num_tok_char(c: char) -> bool {
    is_digit_char(c) || c == '-' || c == '+' || c == '.' || c == 'e' || c == 'E'
}

fn num_tok_char(c: char) -> (r: bool)
    ensures
        r == is_num_tok_char(c),
{
    let u = c as u32;
    (48 <= u && u <= 57) || c == '-' || c == '+' || c == '.' || c == 'e' || c == 'E'
}

/// End of the number-token character run that starts at `i`.
pub open spec fn num_tok_end(s: Seq<char>, i: int) -> int
    decreases s.len() - i,
    when 0 <= i <= s.len()
{
    if i < s.len() && is_num_tok_char(s[i]) {
        num_tok_end(s, i + 1)
    } else {
        i
    }
}

proof fn lemma_num_tok_end(s: Seq<char>, i: int)
    requires
        0 <= i <= s.len(),
    ensures
        i <= num_tok_end(s, i) <= s.len(),
    decreases s.len() - i,
{
    if i < s.len() && is_num_tok_char(s[i]) {
        lemma_num_tok_end(s, i + 1);
    }
}

/// Parse a number token at `i`: the maximal run of number-token characters,
/// accepted when it matches the number grammar.
pub open spec fn p_num(s: Seq<char>, i: int) -> Option<(Seq<char>, int)> {
    if 0 <= i <= s.len() {
        let e = num_tok_end(s, i);
        let tok = s.subrange(i, e);
        if is_json_num(tok) {
            Option::Some((tok, e))
        } else {
            Option::None
        }
    } else {
        Option::None
    }
}

proof fn lemma_p_num(s: Seq<char>, i: int)
    requires
        0 <= i <= s.len(),
    ensures
        p_num(s, i) matches Some(p) ==> i < p.1 <= s.len(),
{
    lemma_num_tok_end(s, i);
    if p_num(s, i) is Some {
        let e = num_tok_end(s, i);
        assert(s.subrange(i, e).len() > 0);
    }
}

fn parse_num_at(s: &str, i: usize) -> (r: Option<(String, usize)>)
    requires
        i <= s@.len(),
    ensures
        r is None <==> p_num(s@, i as int) is None,
        r matches Some(p) ==> p_num(s@, i as int) == Some((p.0@, p.1 as int)),
{
    let len = s.unicode_len();
    let mut e = i;
    while e < len && num_tok_char(s.get_char(e))
        invariant
            i <= e <= len,
            len == s@.len(),
            num_tok_end(s@, i as int) == num_tok_end(s@, e as int),
        decreases len - e,
    {
        e = e + 1;
    }
    let tok = s.substring_char(i, e);
    if json_num(tok) {
        Some((tok.to_owned(), e))
    } else {
        None
    }
}

/// Parse string content after an opening quote: plain characters and the
/// two escapes, up to and including the closing quote.
pub open spec fn p_str_body(s: Seq<char>, i: int) -> Option<(Seq<char>, int)>
    decreases s.len() - i,
    when 0 <= i <= s.len()
{
    if i == s.len() {
        Option::None
    } else if s[i] == '"' {
        Option::Some((Seq::empty(), i + 1))
    } else if s[i] == '\\' {
        if i + 1 < s.len() && (s[i + 1] == '"' || s[i + 1] == '\\') {
            match p_str_body(s, i + 2) {
                Option::Some(p) => Option::Some((seq![s[i + 1]] + p.0, p.1)),
                Option::None => Option::None,
            }
        } else {
            Option::None
        }
    } else {
        match p_str_body(s, i + 1) {
            Option::Some(p) => Option::Some((seq![s[i]] + p.0, p.1)),
            Option::None => Option::None,
        }
    }
}

proof fn lemma_p_str_body(s: Seq<char>, i: int)
    requires
        0 <= i <= s.len(),
    ensures
        p_str_body(s, i) matches Some(p) ==> i < p.1 <= s.len(),
    decreases s.len() - i,
{
    if i < s.len() {
        if s[i] == '\\' {
            if i + 1 < s.len() && (s[i + 1] == '"' || s[i + 1] == '\\') {
                lemma_p_str_body(s, i + 2);
            }
        } else if s[i] != '"' {
            lemma_p_str_body(s, i + 1);
        }
    }
}

fn parse_str_body(s: &str, i: usize) -> (r: Option<(String, usize)>)
    requires
        i <= s@.len(),
    ensures
        r is None <==> p_str_body(s@, i as int) is None,
        r matches Some(p) ==> p_str_body(s@, i as int) == Some((p.0@, p.1 as int)) && p.1
            <= s@.len(),
    decreases s@.len() - i,
{
    let len = s.unicode_len();
    if i == len {
        return None;
    }
    let c = s.get_char(i);
    if c == '"' {
        return Some((String::new(), i + 1));
    }
    if c == '\\' {
        if i + 1 < len {
            let c2 = s.get_char(i + 1);
            if c2 == '"' || c2 == '\\' {
                match parse_str_body(s, i + 2) {
                    Some(p) => {
                        let head = s.substring_char(i + 1, i + 2).to_owned();
                        let t = head.concat(p.0.as_str());
                        proof {
                            assert(t@ =~= seq![s@[i + 1]] + p.0@);
                        }
                        return Some((t, p.1));
                    },
                    None => {
                        return None;
                    },
                }
            }
        }
        return None;
    }
    match parse_str_body(s, i + 1) {
        Some(p) => {
            let head = s.substring_char(i, i + 1).to_owned();
            let t = head.concat(p.0.as_str());
            proof {
                assert(t@ =~= seq![s@[i as int]] + p.0@);
            }
            Some((t, p.1))
        },
        None => None,
    }
}

/// Parse one scalar at `i`: a quoted string or a number token.
pub open spec fn p_scalar(s: Seq<char>, i: int) -> Option<(ScalarV, int)> {
    if 0 <= i < s.len() && s[i] == '"' {
        match p_str_body(s, i + 1) {
            Option::Some(p) => Option::Some((ScalarV::Txt(p.0), p.1)),
            Option::None => Option::None,
        }
    } else {
        match p_num(s, i) {
            Option::Some(p) => Option::Some((ScalarV::Num(p.0), p.1)),
            Option::None => Option::None,
        }
    }
}

proof fn lemma_p_scalar(s: Seq<char>, i: int)
    requires
        0 <= i <= s.len(),
    ensures
        p_scalar(s, i) matches Some(p) ==> i < p.1 <= s.len(),
{
    if i < s.len() && s[i] == '"' {
        lemma_p_str_body(s, i + 1);
    } else {
        lemma_p_num(s, i);
    }
}

fn parse_scalar_at(s: &str, i: usize) -> (r: Option<(Scalar, usize)>)
    requires
        i <= s@.len(),
    ensures
        r is None <==> p_scalar(s@, i as int) is None,
        r matches Some(p) ==> p_scalar(s@, i as int) == Some((p.0@, p.1 as int)) && i < p.1
            <= s@.len(),
{
    proof {
        lemma_p_scalar(s@, i as int);
    }
    let len = s.unicode_len();
    if i < len && s.get_char(i) == '"' {
        match parse_str_body(s, i + 1) {
            Some(p) => Some((Scalar::Txt(p.0), p.1)),
            None => None,
        }
    } else {
        match parse_num_at(s, i) {
            Some(p) => Some((Scalar::Num(p.0), p.1)),
            None => None,
        }
    }
}

/// Parse the items of a non-empty list from just after its `[`, up to and
/// including the closing `]`; whitespace may surround items.
pub open spec fn p_arr_items(s: Seq<char>, i: int) -> Option<(Seq<ScalarV>, int)>
    decreases s.len() - i,
    when 0 <= i <= s.len()
{
    let i0 = ws_run_end(s, i);
    if !(i <= i0 && i0 <= s.len()) {
        Option::None
    } else {
        match p_scalar(s, i0) {
            Option::Some(p) => {
                if !(i0 < p.1 && p.1 <= s.len()) {
                    Option::None
                } else {
                    let j0 = ws_run_end(s, p.1);
                    if !(p.1 <= j0) {
                        Option::None
                    } else if j0 < s.len() && s[j0] == ']' {
                        Option::Some((seq![p.0], j0 + 1))
                    } else if j0 < s.len() && s[j0] == ',' {
                        match p_arr_items(s, j0 + 1) {
                            Option::Some(q) => Option::Some((seq![p.0] + q.0, q.1)),
                            Option::None => Option::None,
                        }
                    } else {
                        Option::None
                    }
                }
            },
            Option::None => Option::None,
        }
    }
}

proof fn lemma_p_arr_items(s: Seq<char>, i: int)
    requires
        0 <= i <= s.len(),
    ensures
        p_arr_items(s, i) matches Some(p) ==> i < p.1 <= s.len(),
    decreases s.len() - i,
{
    if p_arr_items(s, i) is Some {
        let i0 = ws_run_end(s, i);
        let p = p_scalar(s, i0).unwrap();
        let j0 = ws_run_end(s, p.1);
        if j0 < s.len() && s[j0] == ',' {
            lemma_p_arr_items(s, j0 + 1);
        }
    }
}

fn parse_arr_items(s: &str, i: usize) -> (r: Option<(Vec<Scalar>, usize)>)
    requires
        i <= s@.len(),
    ensures
        r is None <==> p_arr_items(s@, i as int) is None,
        r matches Some(p) ==> p_arr_items(s@, i as int) == Some((p.0.deep_view(), p.1 as int))
            && p.1 <= s@.len(),
    decreases s@.len() - i,
{
    let len = s.unicode_len();
    let i0 = skip_ws(s, i);
    match parse_scalar_at(s, i0) {
        Some(p) => {
            let (v, j) = p;
            let j0 = skip_ws(s, j);
            if j0 < len && s.get_char(j0) == ']' {
                let mut items: Vec<Scalar> = Vec::new();
                items.push(v);
                proof {
                    assert(items.deep_view() =~~= seq![v@]);
                }
                Some((items, j0 + 1))
            } else if j0 < len && s.get_char(j0) == ',' {
                match parse_arr_items(s, j0 + 1) {
                    Some(q) => {
                        let (mut items, k) = q;
                        let ghost qv = items.deep_view();
                        items.insert(0, v);
                        proof {
                            assert(items.deep_view() =~~= seq![v@] + qv);
                        }
                        Some((items, k))
                    },
                    None => None,
                }
            } else {
                None
            }
        },
        None => None,
    }
}

/// Parse one dict member's value: a list in brackets or a scalar, after
/// leading whitespace.
pub open spec fn p_member_val(s: Seq<char>, i: int) -> Option<(DictValV, int)> {
    if !(0 <= i <= s.len()) {
        Option::None
    } else {
        let i0 = ws_run_end(s, i);
        if !(i <= i0 && i0 <= s.len()) {
            Option::None
        } else if i0 < s.len() && s[i0] == '[' {
            let b = ws_run_end(s, i0 + 1);
            if i0 + 1 <= b && b < s.len() && s[b] == ']' {
                Option::Some((DictValV::Many(Seq::empty()), b + 1))
            } else {
                match p_arr_items(s, i0 + 1) {
                    Option::Some(p) => Option::Some((DictValV::Many(p.0), p.1)),
                    Option::None => Option::None,
                }
            }
        } else {
            match p_scalar(s, i0) {
                Option::Some(p) => Option::Some((DictValV::One(p.0), p.1)),
                Option::None => Option::None,
            }
        }
    }
}

proof fn lemma_p_member_val(s: Seq<char>, i: int)
    requires
        0 <= i <= s.len(),
    ensures
        p_member_val(s, i) matches Some(p) ==> i < p.1 <= s.len(),
{
    let i0 = ws_run_end(s, i);
    if i <= i0 && i0 < s.len() && s[i0] == '[' {
        lemma_p_arr_items(s, i0 + 1);
    } else if i <= i0 && i0 <= s.len() {
        lemma_p_scalar(s, i0);
    }
}

fn parse_member_val(s: &str, i: usize) -> (r: Option<(DictVal, usize)>)
    requires
        i <= s@.len(),
    ensures
        r is None <==> p_member_val(s@, i as int) is None,
        r matches Some(p) ==> p_member_val(s@, i as int) == Some((p.0@, p.1 as int)) && i < p.1
            <= s@.len(),
{
    proof {
        lemma_p_member_val(s@, i as int);
    }
    let len = s.unicode_len();
    let i0 = skip_ws(s, i);
    if i0 < len && s.get_char(i0) == '[' {
        let b = skip_ws(s, i0 + 1);
        if b < len && s.get_char(b) == ']' {
            let items: Vec<Scalar> = Vec::new();
            proof {
                assert(items.deep_view() =~~= Seq::<ScalarV>::empty());
            }
            Some((DictVal::Many(items), b + 1))
        } else {
            match parse_arr_items(s, i0 + 1) {
                Some(p) => Some((DictVal::Many(p.0), p.1)),
                None => None,
            }
        }
    } else {
        match parse_scalar_at(s, i0) {
            Some(p) => Some((DictVal::One(p.0), p.1)),
            None => None,
        }
    }
}

/// Parse the members of a non-empty dict from just after its `{`, up to and
/// including the closing `}`; whitespace may surround keys, colons, values
/// and separators.
pub open spec fn p_obj_members(s: Seq<char>, i: int) -> Option<
    (Seq<(Seq<char>, DictValV)>, int),
>
    decreases s.len() - i,
    when 0 <= i <= s.len()
{
    let i0 = ws_run_end(s, i);
    if !(i <= i0 && i0 < s.len() && s[i0] == '"') {
        Option::None
    } else {
        match p_str_body(s, i0 + 1) {
            Option::Some(kp) => {
                if !(i0 < kp.1 && kp.1 <= s.len()) {
                    Option::None
                } else {
                    let j0 = ws_run_end(s, kp.1);
                    if !(kp.1 <= j0 && j0 < s.len() && s[j0] == ':') {
                        Option::None
                    } else {
                        match p_member_val(s, j0 + 1) {
                            Option::Some(vp) => {
                                if !(j0 < vp.1 && vp.1 <= s.len()) {
                                    Option::None
                                } else {
                                    let k0 = ws_run_end(s, vp.1);
                                    if !(vp.1 <= k0) {
                                        Option::None
                                    } else if k0 < s.len() && s[k0] == '}' {
                                        Option::Some((seq![(kp.0, vp.0)], k0 + 1))
                                    } else if k0 < s.len() && s[k0] == ',' {
                                        match p_obj_members(s, k0 + 1) {
                                            Option::Some(q) => Option::Some(
                                                (seq![(kp.0, vp.0)] + q.0, q.1),
                                            ),
                                            Option::None => Option::None,
                                        }
                                    } else {
                                        Option::None
                                    }
                                }
                            },
                            Option::None => Option::None,
                        }
                    }
                }
            },
            Option::None => Option::None,
        }
    }
}

proof fn lemma_p_obj_members(s: Seq<char>, i: int)
    requires
        0 <= i <= s.len(),
    ensures
        p_obj_members(s, i) matches Some(p) ==> i < p.1 <= s.len(),
    decreases s.len() - i,
{
    if p_obj_members(s, i) is Some {
        let i0 = ws_run_end(s, i);
        let kp = p_str_body(s, i0 + 1).unwrap();
        let j0 = ws_run_end(s, kp.1);
        let vp = p_member_val(s, j0 + 1).unwrap();
        let k0 = ws_run_end(s, vp.1);
        if k0 < s.len() && s[k0] == ',' {
            lemma_p_obj_members(s, k0 + 1);
        }
    }
}

fn parse_obj_members(s: &str, i: usize) -> (r: Option<(Vec<(String, DictVal)>, usize)>)
    requires
        i <= s@.len(),
    ensures
        r is None <==> p_obj_members(s@, i as int) is None,
        r matches Some(p) ==> p_obj_members(s@, i as int) == Some((p.0.deep_view(), p.1 as int))
            && p.1 <= s@.len(),
    decreases s@.len() - i,
{
    let len = s.unicode_len();
    let i0 = skip_ws(s, i);
    if !(i0 < len && s.get_char(i0) == '"') {
        return None;
    }
    match parse_str_body(s, i0 + 1) {
        Some(kp) => {
            let (key, j) = kp;
            proof {
                lemma_p_str_body(s@, i0 + 1);
            }
            let j0 = skip_ws(s, j);
            if !(j0 < len && s.get_char(j0) == ':') {
                return None;
            }
            match parse_member_val(s, j0 + 1) {
                Some(vp) => {
                    let (mv, k) = vp;
                    let k0 = skip_ws(s, k);
                    if k0 < len && s.get_char(k0) == '}' {
                        let mut members: Vec<(String, DictVal)> = Vec::new();
                        members.push((key, mv));
                        proof {
                            assert(members.deep_view() =~~= seq![
                                (
                                    p_str_body(s@, i0 + 1).unwrap().0,
                                    p_member_val(s@, j0 + 1).unwrap().0,
                                ),
                            ]);
                        }
                        Some((members, k0 + 1))
                    } else if k0 < len && s.get_char(k0) == ',' {
                        match parse_obj_members(s, k0 + 1) {
                            Some(q) => {
                                let (mut members, m) = q;
                                let ghost qv = members.deep_view();
                                members.insert(0, (key, mv));
                                proof {
                                    assert(members.deep_view() =~~= seq![
                                        (
                                            p_str_body(s@, i0 + 1).unwrap().0,
                                            p_member_val(s@, j0 + 1).unwrap().0,
                                        ),
                                    ] + qv);
                                }
                                Some((members, m))
                            },
                            None => None,
                        }
                    } else {
                        None
                    }
                },
                None => None,
            }
        },
        None => None,
    }
}

/// Decode a whole sequence as a dict, a list or a bare scalar; `None` when
/// it is not one well-formed encoded value, with nothing but whitespace
/// around it.
pub open spec fn spec_json_decode(s: Seq<char>) -> Option<JsonTreeV> {
    let i0 = ws_run_end(s, 0);
    if !(0 <= i0 && i0 <= s.len()) {
        Option::None
    } else if i0 == s.len() {
        Option::None
    } else if s[i0] == '{' {
        let b = ws_run_end(s, i0 + 1);
        if i0 + 1 <= b && b < s.len() && s[b] == '}' {
            if ws_run_end(s, b + 1) == s.len() {
                Option::Some(JsonTreeV::Obj(Seq::empty()))
            } else {
                Option::None
            }
        } else {
            match p_obj_members(s, i0 + 1) {
                Option::Some(p) => {
                    if p.1 <= s.len() && ws_run_end(s, p.1) == s.len() {
                        Option::Some(JsonTreeV::Obj(p.0))
                    } else {
                        Option::None
                    }
                },
                Option::None => Option::None,
            }
        }
    } else if s[i0] == '[' {
        let b = ws_run_end(s, i0 + 1);
        if i0 + 1 <= b && b < s.len() && s[b] == ']' {
            if ws_run_end(s, b + 1) == s.len() {
                Option::Some(JsonTreeV::Arr(Seq::empty()))
            } else {
                Option::None
            }
        } else {
            match p_arr_items(s, i0 + 1) {
                Option::Some(p) => {
                    if p.1 <= s.len() && ws_run_end(s, p.1) == s.len() {
                        Option::Some(JsonTreeV::Arr(p.0))
                    } else {
                        Option::None
                    }
                },
                Option::None => Option::None,
            }
        }
    } else {
        match p_scalar(s, i0) {
            Option::Some(p) => {
                if p.1 <= s.len() && ws_run_end(s, p.1) == s.len() {
                    Option::Some(JsonTreeV::Prim(p.0))
                } else {
                    Option::None
                }
            },
            Option::None => Option::None,
        }
    }
}

/// Decode a dict/list/scalar encoding. The encoder's compact output always
/// decodes (the round-trip law below), and whitespace around structural
/// tokens is tolerated on the way in.
pub fn json_decode(s: &str) -> (r: Option<JsonTree>)
    ensures
        r is None <==> spec_json_decode(s@) is None,
        r matches Some(t) ==> spec_json_decode(s@) == Some(t.deep_view()),
{
    let len = s.unicode_len();
    let i0 = skip_ws(s, 0);
    if i0 == len {
        return None;
    }
    let c0 = s.get_char(i0);
    if c0 == '{' {
        let b = skip_ws(s, i0 + 1);
        if b < len && s.get_char(b) == '}' {
            if skip_ws(s, b + 1) == len {
                let d: Vec<(String, DictVal)> = Vec::new();
                proof {
                    assert(d.deep_view() =~= Seq::<(Seq<char>, DictValV)>::empty());
                }
                Some(JsonTree::Obj(d))
            } else {
                None
            }
        } else {
            match parse_obj_members(s, i0 + 1) {
                Some(p) => {
                    if skip_ws(s, p.1) == len {
                        Some(JsonTree::Obj(p.0))
                    } else {
                        None
                    }
                },
                None => None,
            }
        }
    } else if c0 == '[' {
        let b = skip_ws(s, i0 + 1);
        if b < len && s.get_char(b) == ']' {
            if skip_ws(s, b + 1) == len {
                let items: Vec<Scalar> = Vec::new();
                proof {
                    assert(items.deep_view() =~= Seq::<ScalarV>::empty());
                }
                Some(JsonTree::Arr(items))
            } else {
                None
            }
        } else {
            match parse_arr_items(s, i0 + 1) {
                Some(p) => {
                    if skip_ws(s, p.1) == len {
                        Some(JsonTree::Arr(p.0))
                    } else {
                        None
                    }
                },
                None => None,
            }
        }
    } else {
        match parse_scalar_at(s, i0) {
            Some(p) => {
                if skip_ws(s, p.1) == len {
                    Some(JsonTree::Prim(p.0))
                } else {
                    None
                }
            },
            None => None,
        }
    }
}

/// Every character of a well-formed number token is a number-token
/// character, and the token starts with a minus or a digit.
proof fn lemma_json_num_chars(n: Seq<char>)
    requires
        is_json_num(n),
    ensures
        n.len() > 0,
        n[0] == '-' || is_digit_char(n[0]),
        forall|k: int| 0 <= k < n.len() ==> is_num_tok_char(#[trigger] n[k]),
{
    let st: int = if n.len() > 0 && n[0] == '-' {
        1
    } else {
        0
    };
    assert(st < n.len());
    let d1 = crate::numeric::digits_end(n, st);
    assert(d1 > st);
    crate::numeric::lemma_digits_end(n, st);
    let p: int = if d1 < n.len() && n[d1] == '.' {
        let d2 = crate::numeric::digits_end(n, d1 + 1);
        if d2 > d1 + 1 {
            d2
        } else {
            -1
        }
    } else {
        d1
    };
    if d1 < n.len() && n[d1] == '.' {
        crate::numeric::lemma_digits_end(n, d1 + 1);
    }
    assert(p >= 0 && crate::numeric::exp_ok_from(n, p));
    let q: int = if p + 1 < n.len() && crate::numeric::is_sign_char(n[p + 1]) {
        p + 2
    } else {
        p + 1
    };
    if p < n.len() {
        crate::numeric::lemma_digits_end(n, q);
    }
    assert forall|k: int| 0 <= k < n.len() implies is_num_tok_char(#[trigger] n[k]) by {
        if k < st {
        } else if k < d1 {
        } else if p > d1 && k == d1 {
        } else if p > d1 && d1 < k < p {
        } else if k == p {
        } else if q == p + 2 && k == p + 1 {
        } else {
        }
    }
}

/// The number-token run ends exactly where the token-character region ends.
proof fn lemma_num_tok_end_exact(s: Seq<char>, i: int, l: int)
    requires
        0 <= i,
        0 <= l,
        i + l <= s.len(),
        forall|t: int| i <= t < i + l ==> is_num_tok_char(#[trigger] s[t]),
        i + l == s.len() || !is_num_tok_char(s[i + l]),
    ensures
        num_tok_end(s, i) == i + l,
    decreases l,
{
    if l > 0 {
        lemma_num_tok_end_exact(s, i + 1, l - 1);
    }
}

/// A suffix of `s` decomposed as `x + y` pins the characters of both parts,
/// and the suffix past `x` is `y`.
proof fn lemma_suffix_drop(s: Seq<char>, i: int, x: Seq<char>, y: Seq<char>)
    requires
        0 <= i <= s.len(),
        s.subrange(i, s.len() as int) == x + y,
    ensures
        i + x.len() + y.len() == s.len(),
        forall|m: int| 0 <= m < x.len() ==> s[i + m] == x[m],
        forall|m: int| 0 <= m < y.len() ==> s[i + x.len() + m] == y[m],
        x.len() > 0 ==> s[i] == x[0],
        x.len() > 1 ==> s[i + 1] == x[1],
        y.len() > 0 ==> s[i + x.len()] == y[0],
        s.subrange(i + x.len(), s.len() as int) == y,
{
    let sub = s.subrange(i, s.len() as int);
    let d = x.len() as int;
    assert(sub.len() == s.len() - i);
    assert((x + y).len() == x.len() + y.len());
    assert forall|m: int| 0 <= m < x.len() implies s[i + m] == x[m] by {
        assert(sub[m] == s[i + m]);
        assert((x + y)[m] == x[m]);
    }
    assert forall|m: int| 0 <= m < y.len() implies s[i + d + m] == y[m] by {
        assert(sub[d + m] == s[i + d + m]);
        assert((x + y)[d + m] == y[m]);
    }
    assert forall|m: int| 0 <= m < y.len() implies s.subrange(i + d, s.len() as int)[m] == y[m] by {
        assert(s.subrange(i + d, s.len() as int)[m] == s[i + d + m]);
    }
    assert(s.subrange(i + d, s.len() as int).len() == y.len());
    assert(s.subrange(i + d, s.len() as int) =~= y);
    if x.len() > 0 {
        assert(s[i + 0] == x[0]);
    }
    if x.len() > 1 {
        assert(s[i + 1] == x[1]);
    }
    if y.len() > 0 {
        assert(s[i + d + 0] == y[0]);
    }
}

/// Parsing at an encoded number token yields that token.
proof fn lemma_p_num_enc(s: Seq<char>, i: int, n: Seq<char>, rest: Seq<char>)
    requires
        0 <= i <= s.len(),
        s.subrange(i, s.len() as int) == n + rest,
        is_json_num(n),
        rest.len() > 0 ==> !is_num_tok_char(rest[0]),
    ensures
        p_num(s, i) == Option::Some((n, i + n.len())),
{
    lemma_json_num_chars(n);
    lemma_suffix_drop(s, i, n, rest);
    assert forall|t: int| i <= t < i + n.len() implies is_num_tok_char(#[trigger] s[t]) by {
        assert(s[t] == n[t - i]);
    }
    if i + n.len() < s.len() {
        assert(s[i + n.len()] == rest[0]);
    }
    lemma_num_tok_end_exact(s, i, n.len() as int);
    assert forall|m: int| 0 <= m < n.len() implies s.subrange(i, i + n.len())[m] == n[m] by {
        assert(s.subrange(i, i + n.len())[m] == s[i + m]);
    }
    assert(s.subrange(i, i + n.len()) =~= n);
}

/// Parsing string content at an escaped text followed by a closing quote
/// yields that text and stops after the quote.
proof fn lemma_p_str_body_enc(s: Seq<char>, i: int, t: Seq<char>, rest: Seq<char>)
    requires
        0 <= i <= s.len(),
        s.subrange(i, s.len() as int) == spec_json_escape(t) + seq!['"'] + rest,
    ensures
        p_str_body(s, i) == Option::Some((t, i + spec_json_escape(t).len() + 1)),
    decreases t.len(),
{
    let e = spec_json_escape(t);
    if t.len() == 0 {
        assert(e + seq!['"'] + rest =~= seq!['"'] + rest);
        assert(s.subrange(i, s.len() as int) == seq!['"'] + rest);
        lemma_suffix_drop(s, i, seq!['"'], rest);
        assert(s[i] == '"');
        assert(t =~= Seq::<char>::empty());
    } else {
        let c = t.first();
        let t2 = t.drop_first();
        let e2 = spec_json_escape(t2);
        if c == '"' || c == '\\' {
            assert(e =~= seq!['\\', c] + e2);
            assert(e + seq!['"'] + rest =~= seq!['\\', c] + (e2 + seq!['"'] + rest));
            assert(s.subrange(i, s.len() as int) == seq!['\\', c] + (e2 + seq!['"'] + rest));
            lemma_suffix_drop(s, i, seq!['\\', c], e2 + seq!['"'] + rest);
            assert(s[i] == '\\');
            assert(s[i + 1] == c);
            lemma_p_str_body_enc(s, i + 2, t2, rest);
            assert(seq![s[i + 1]] + t2 =~= t);
        } else {
            assert(e =~= seq![c] + e2);
            assert(e + seq!['"'] + rest =~= seq![c] + (e2 + seq!['"'] + rest));
            assert(s.subrange(i, s.len() as int) == seq![c] + (e2 + seq!['"'] + rest));
            lemma_suffix_drop(s, i, seq![c], e2 + seq!['"'] + rest);
            assert(s[i] == c);
            lemma_p_str_body_enc(s, i + 1, t2, rest);
            assert(seq![s[i]] + t2 =~= t);
        }
    }
}

/// Parsing at an encoded scalar yields that scalar.
proof fn lemma_p_scalar_enc(s: Seq<char>, i: int, v: ScalarV, rest: Seq<char>)
    requires
        0 <= i <= s.len(),
        scalar_wf(v),
        s.subrange(i, s.len() as int) == enc_scalar(v) + rest,
        v is Num ==> (rest.len() > 0 ==> !is_num_tok_char(rest[0])),
    ensures
        p_scalar(s, i) == Option::Some((v, i + enc_scalar(v).len())),
{
    match v {
        ScalarV::Num(n) => {
            lemma_json_num_chars(n);
            lemma_suffix_drop(s, i, n, rest);
            assert(s[i] == n[0]);
            assert(s[i] != '"');
            lemma_p_num_enc(s, i, n, rest);
        },
        ScalarV::Txt(t) => {
            let e = spec_json_escape(t);
            assert(enc_scalar(v) + rest =~= seq!['"'] + (e + seq!['"'] + rest));
            assert(s.subrange(i, s.len() as int) == seq!['"'] + (e + seq!['"'] + rest));
            lemma_suffix_drop(s, i, seq!['"'], e + seq!['"'] + rest);
            assert(s[i] == '"');
            lemma_p_str_body_enc(s, i + 1, t, rest);
        },
    }
}

/// An encoded scalar is never empty.
proof fn lemma_enc_scalar_len(v: ScalarV)
    requires
        scalar_wf(v),
    ensures
        enc_scalar(v).len() > 0,
{
    match v {
        ScalarV::Num(n) => {
            lemma_json_num_chars(n);
        },
        ScalarV::Txt(t) => {},
    }
}

/// Comma-joined scalars peel from the front.
proof fn lemma_enc_scalars_front(vs: Seq<ScalarV>)
    requires
        vs.len() >= 1,
    ensures
        enc_scalars(vs) == enc_scalar(vs[0]) + (if vs.len() == 1 {
            Seq::<char>::empty()
        } else {
            seq![','] + enc_scalars(vs.drop_first())
        }),
    decreases vs.len(),
{
    if vs.len() == 1 {
        assert(enc_scalars(vs) =~= enc_scalar(vs[0]) + Seq::<char>::empty());
    } else {
        lemma_enc_scalars_front(vs.drop_last());
        assert(vs.drop_last()[0] == vs[0]);
        if vs.len() == 2 {
            assert(vs.drop_last() =~= seq![vs[0]]);
            assert(vs.drop_first() =~= seq![vs[1]]);
            assert(enc_scalars(vs.drop_first()) == enc_scalar(vs[1]));
            assert(enc_scalars(vs) =~= enc_scalar(vs[0]) + (seq![','] + enc_scalar(vs.last())));
        } else {
            assert(vs.drop_first().drop_last() =~= vs.drop_last().drop_first());
            assert(vs.drop_first().last() == vs.last());
            assert(vs.drop_first().len() >= 2);
            assert(enc_scalars(vs.drop_first()) == enc_scalars(vs.drop_first().drop_last()) + seq![
                ',',
            ] + enc_scalar(vs.last()));
            assert(enc_scalars(vs) =~= enc_scalar(vs[0]) + (seq![','] + enc_scalars(
                vs.drop_first(),
            )));
        }
    }
}

/// Parsing at encoded list items followed by the closing bracket yields the
/// items and stops after the bracket.
proof fn lemma_p_arr_items_enc(s: Seq<char>, i: int, vs: Seq<ScalarV>, rest: Seq<char>)
    requires
        0 <= i <= s.len(),
        vs.len() >= 1,
        scalars_wf(vs),
        s.subrange(i, s.len() as int) == enc_scalars(vs) + seq![']'] + rest,
    ensures
        p_arr_items(s, i) == Option::Some((vs, i + enc_scalars(vs).len() + 1)),
    decreases vs.len(),
{
    lemma_enc_scalars_front(vs);
    lemma_enc_scalar_len(vs[0]);
    let e0 = enc_scalar(vs[0]);
    let j = i + e0.len();
    if vs.len() == 1 {
        let tail = seq![']'] + rest;
        assert(enc_scalars(vs) + seq![']'] + rest =~= e0 + tail);
        assert(s.subrange(i, s.len() as int) == e0 + tail);
        lemma_suffix_drop(s, i, e0, tail);
        lemma_p_scalar_enc(s, i, vs[0], tail);
        assert(s[j] == ']');
        assert(seq![vs[0]] =~= vs);
    } else {
        let tail = seq![','] + (enc_scalars(vs.drop_first()) + seq![']'] + rest);
        assert(enc_scalars(vs) + seq![']'] + rest =~= e0 + tail);
        assert(s.subrange(i, s.len() as int) == e0 + tail);
        lemma_suffix_drop(s, i, e0, tail);
        lemma_p_scalar_enc(s, i, vs[0], tail);
        assert(s[j] == ',');
        assert(tail =~= seq![','] + (enc_scalars(vs.drop_first()) + seq![']'] + rest));
        assert(s.subrange(j, s.len() as int) == tail);
        lemma_suffix_drop(s, j, seq![','], enc_scalars(vs.drop_first()) + seq![']'] + rest);
        assert(forall|k: int| 0 <= k < vs.drop_first().len() ==> scalar_wf(
            #[trigger] vs.drop_first()[k],
        ));
        lemma_p_arr_items_enc(s, j + 1, vs.drop_first(), rest);
        assert(seq![vs[0]] + vs.drop_first() =~= vs);
    }
}

/// Parsing at an encoded dict member value yields that value.
proof fn lemma_p_member_val_enc(s: Seq<char>, i: int, v: DictValV, rest: Seq<char>)
    requires
        0 <= i <= s.len(),
        dictval_wf(v),
        s.subrange(i, s.len() as int) == enc_dictval(v) + rest,
        rest.len() > 0 ==> (rest[0] == ',' || rest[0] == '}'),
    ensures
        p_member_val(s, i) == Option::Some((v, i + enc_dictval(v).len())),
{
    match v {
        DictValV::One(sc) => {
            lemma_enc_scalar_len(sc);
            lemma_suffix_drop(s, i, enc_scalar(sc), rest);
            match sc {
                ScalarV::Num(n) => {
                    lemma_json_num_chars(n);
                    assert(s[i] == n[0]);
                    assert(s[i] != '[');
                },
                ScalarV::Txt(t) => {
                    assert(enc_scalar(sc)[0] == '"');
                    assert(s[i] == '"');
                },
            }
            lemma_p_scalar_enc(s, i, sc, rest);
        },
        DictValV::Many(vs) => {
            if vs.len() == 0 {
                assert(enc_dictval(v) =~= seq!['[', ']']);
                assert(enc_dictval(v) + rest =~= seq!['[', ']'] + rest);
                assert(s.subrange(i, s.len() as int) == seq!['[', ']'] + rest);
                lemma_suffix_drop(s, i, seq!['[', ']'], rest);
                assert(s[i] == '[');
                assert(s[i + 1] == ']');
            } else {
                lemma_enc_scalars_front(vs);
                lemma_enc_scalar_len(vs[0]);
                let body = enc_scalars(vs) + seq![']'] + rest;
                assert(enc_dictval(v) + rest =~= seq!['['] + body);
                assert(s.subrange(i, s.len() as int) == seq!['['] + body);
                lemma_suffix_drop(s, i, seq!['['], body);
                assert(s[i] == '[');
                assert(body[0] == enc_scalar(vs[0])[0]);
                assert(s[i + 1] == enc_scalar(vs[0])[0]);
                match vs[0] {
                    ScalarV::Num(n) => {
                        lemma_json_num_chars(n);
                        assert(enc_scalar(vs[0])[0] == n[0]);
                        assert(s[i + 1] != ']');
                    },
                    ScalarV::Txt(t) => {
                        assert(enc_scalar(vs[0])[0] == '"');
                        assert(s[i + 1] != ']');
                    },
                }
                lemma_p_arr_items_enc(s, i + 1, vs, rest);
            }
        },
    }
}

/// Comma-joined members peel from the front.
proof fn lemma_enc_members_front(d: Seq<(Seq<char>, DictValV)>)
    requires
        d.len() >= 1,
    ensures
        enc_members(d) == enc_member(d[0]) + (if d.len() == 1 {
            Seq::<char>::empty()
        } else {
            seq![','] + enc_members(d.drop_first())
        }),
    decreases d.len(),
{
    if d.len() == 1 {
        assert(enc_members(d) =~= enc_member(d[0]) + Seq::<char>::empty());
    } else {
        lemma_enc_members_front(d.drop_last());
        assert(d.drop_last()[0] == d[0]);
        if d.len() == 2 {
            assert(d.drop_last() =~= seq![d[0]]);
            assert(d.drop_first() =~= seq![d[1]]);
            assert(enc_members(d.drop_first()) == enc_member(d[1]));
            assert(enc_members(d) =~= enc_member(d[0]) + (seq![','] + enc_member(d.last())));
        } else {
            assert(d.drop_first().drop_last() =~= d.drop_last().drop_first());
            assert(d.drop_first().last() == d.last());
            assert(d.drop_first().len() >= 2);
            assert(enc_members(d.drop_first()) == enc_members(d.drop_first().drop_last()) + seq![
                ',',
            ] + enc_member(d.last()));
            assert(enc_members(d) =~= enc_member(d[0]) + (seq![','] + enc_members(d.drop_first())));
        }
    }
}

/// Parsing at encoded dict members followed by the closing brace yields the
/// members and stops after the brace.
proof fn lemma_p_obj_members_enc(s: Seq<char>, i: int, d: Seq<(Seq<char>, DictValV)>, rest: Seq<
    char,
>)
    requires
        0 <= i <= s.len(),
        d.len() >= 1,
        dict_wf(d),
        s.subrange(i, s.len() as int) == enc_members(d) + seq!['}'] + rest,
    ensures
        p_obj_members(s, i) == Option::Some((d, i + enc_members(d).len() + 1)),
    decreases d.len(),
{
    lemma_enc_members_front(d);
    let key = d[0].0;
    let mv = d[0].1;
    let e = spec_json_escape(key);
    let tail: Seq<char> = if d.len() == 1 {
        seq!['}'] + rest
    } else {
        seq![','] + (enc_members(d.drop_first()) + seq!['}'] + rest)
    };
    assert(enc_member(d[0]) =~= seq!['"'] + ((e + seq!['"']) + (seq![':'] + enc_dictval(mv))));
    assert(enc_members(d) + seq!['}'] + rest =~= seq!['"'] + (e + seq!['"'] + (seq![':']
        + enc_dictval(mv) + tail)));
    assert(s.subrange(i, s.len() as int) == seq!['"'] + (e + seq!['"'] + (seq![':'] + enc_dictval(
        mv,
    ) + tail)));
    lemma_suffix_drop(s, i, seq!['"'], e + seq!['"'] + (seq![':'] + enc_dictval(mv) + tail));
    assert(s[i] == '"');
    lemma_p_str_body_enc(s, i + 1, key, seq![':'] + enc_dictval(mv) + tail);
    let j = i + 1 + e.len() + 1;
    assert(s.subrange(i + 1, s.len() as int) =~= (e + seq!['"']) + (seq![':'] + enc_dictval(mv)
        + tail));
    lemma_suffix_drop(s, i + 1, e + seq!['"'], seq![':'] + enc_dictval(mv) + tail);
    assert(seq![':'] + enc_dictval(mv) + tail =~= seq![':'] + (enc_dictval(mv) + tail));
    assert(s[j] == ':');
    assert(s.subrange(j, s.len() as int) =~= seq![':'] + (enc_dictval(mv) + tail));
    lemma_suffix_drop(s, j, seq![':'], enc_dictval(mv) + tail);
    assert(dictval_wf(mv));
    assert(tail[0] == ',' || tail[0] == '}');
    lemma_p_member_val_enc(s, j + 1, mv, tail);
    let k = j + 1 + enc_dictval(mv).len();
    assert(s.subrange(j + 1, s.len() as int) =~= enc_dictval(mv) + tail);
    lemma_suffix_drop(s, j + 1, enc_dictval(mv), tail);
    assert(s[k] == tail[0]);
    if d.len() == 1 {
        assert(s[k] == '}');
        assert(seq![(key, mv)] =~= d);
        assert(enc_members(d) =~= enc_member(d[0]));
        assert(k + 1 == i + enc_members(d).len() + 1);
    } else {
        assert(s[k] == ',');
        assert(s.subrange(k, s.len() as int) =~= tail);
        lemma_suffix_drop(s, k, seq![','], enc_members(d.drop_first()) + seq!['}'] + rest);
        assert(forall|t: int| 0 <= t < d.drop_first().len() ==> dictval_wf(
            (#[trigger] d.drop_first()[t]).1,
        ));
        lemma_p_obj_members_enc(s, k + 1, d.drop_first(), rest);
        assert(seq![(key, mv)] + d.drop_first() =~= d);
    }
}

/// Decoding an encoded dict gives the dict back: the dict/list encoding and
/// its decoder are exact inverses on every well-formed dict.
pub proof fn lemma_json_dict_round_trip(d: Seq<(Seq<char>, DictValV)>)
    requires
        dict_wf(d),
    ensures
        spec_json_decode(enc_dict(d)) == Option::Some(JsonTreeV::Obj(d)),
{
    let s = enc_dict(d);
    assert(s =~= seq!['{'] + (enc_members(d) + seq!['}']));
    assert(s.subrange(0, s.len() as int) =~= s);
    lemma_suffix_drop(s, 0, seq!['{'], enc_members(d) + seq!['}']);
    assert(s[0] == '{');
    if d.len() == 0 {
        assert(s =~= seq!['{', '}']);
        assert(s[1] == '}');
    } else {
        lemma_enc_members_front(d);
        assert(enc_member(d[0]) =~= seq!['"'] + (spec_json_escape(d[0].0) + seq!['"'] + (seq![':']
            + enc_dictval(d[0].1))));
        assert(enc_member(d[0])[0] == '"');
        assert(enc_members(d)[0] == '"');
        assert(s[1] == '"');
        assert(s.subrange(1, s.len() as int) =~= enc_members(d) + seq!['}'] + Seq::<char>::empty());
        lemma_p_obj_members_enc(s, 1, d, Seq::empty());
        assert(1 + enc_members(d).len() + 1 == s.len());
        if s.len() == 2 {
            assert(enc_members(d).len() == 0);
            assert(enc_member(d[0]).len() >= 1);
        }
    }
}

} // verus!
