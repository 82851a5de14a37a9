//! The XML form of ApexLang values used by `serde.to_xml` and
//! `serde.from_xml`: each value is a `<value type="...">` element, a tuple
//! holding its items in `<item>` elements, text escaped with the five XML
//! entities.

use vstd::prelude::*;
use crate::apexlang::ast::{value_v, Value, ValueV};
use crate::apexlang::error::ApexError;
use crate::apexlang::formats::{escape_xml, unescape_xml, xml_escaped, xml_unescaped};
use crate::forge::math::{big_parse, bigint_text_value, radix_text};
use crate::text::{chars_equal, chars_of, string_of};

verus! {

/// The XML of a value.
pub open spec fn xml_text(v: ValueV) -> Seq<char>
    decreases v,
{
    match v {
        ValueV::Int(t) => "<value type=\"int\">"@ + xml_escaped(t) + "</value>"@,
        ValueV::Number(t) => "<value type=\"number\">"@ + xml_escaped(t) + "</value>"@,
        ValueV::Bool(b) => "<value type=\"bool\">"@ + (if b { "true"@ } else { "false"@ }) + "</value>"@,
        ValueV::Str(t) => "<value type=\"string\">"@ + xml_escaped(t) + "</value>"@,
        ValueV::Tuple(items) => "<value type=\"tuple\">"@ + items_xml(items) + "</value>"@,
    }
}

/// The `<item>` elements of tuple items.
pub open spec fn items_xml(items: Seq<ValueV>) -> Seq<char>
    decreases items,
{
    if items.len() == 0 {
        Seq::empty()
    } else {
        items_xml(items.drop_last()) + "<item>"@ + xml_text(items.last()) + "</item>"@
    }
}

fn append_escaped_text(out: &mut String, text: &str)
    ensures
        final(out)@ == old(out)@ + xml_escaped(text@),
{
    let e = escape_xml(text);
    out.append(e.as_str());
}

fn write_value(v: &Value, out: &mut String)
    ensures
        final(out)@ == old(out)@ + xml_text(value_v(*v)),
    decreases v,
{
    match v {
        Value::Int(t) => {
            out.append("<value type=\"int\">");
            append_escaped_text(out, t.as_str());
            out.append("</value>");
        },
        Value::Number(t) => {
            out.append("<value type=\"number\">");
            append_escaped_text(out, t.as_str());
            out.append("</value>");
        },
        Value::Bool(b) => {
            out.append("<value type=\"bool\">");
            out.append(if *b { "true" } else { "false" });
            out.append("</value>");
        },
        Value::String(t) => {
            out.append("<value type=\"string\">");
            append_escaped_text(out, t.as_str());
            out.append("</value>");
        },
        Value::Tuple(items) => {
            let ghost iv = match value_v(*v) {
                ValueV::Tuple(x) => x,
                _ => Seq::empty(),
            };
            out.append("<value type=\"tuple\">");
            let ghost start = out@;
            let mut i: usize = 0;
            assert(iv.take(0) =~= Seq::<ValueV>::empty());
            while i < items.len()
                invariant
                    i <= items@.len(),
                    *v == Value::Tuple(*items),
                    iv.len() == items@.len(),
                    forall|j: int| 0 <= j < items@.len() ==> iv[j] == value_v(#[trigger] items@[j]),
                    out@ == start + items_xml(iv.take(i as int)),
                decreases items@.len() - i,
            {
                out.append("<item>");
                proof {
                    assert(decreases_to!(*v => v->Tuple_0));
                    assert(decreases_to!(*items => items@));
                    assert(decreases_to!(items@ => items@[i as int]));
                    assert(decreases_to!(*v => items@[i as int]));
                }
                write_value(&items[i], out);
                out.append("</item>");
                proof {
                    assert(iv.take(i + 1).drop_last() =~= iv.take(i as int));
                    assert(iv.take(i + 1).last() == value_v(items@[i as int]));
                }
                i = i + 1;
            }
            assert(iv.take(i as int) =~= iv);
            out.append("</value>");
        },
    }
}

/// The XML of a value
pub fn value_to_xml(value: &Value) -> (s: String)
    ensures
        s@ == xml_text(value_v(*value)),
{
    let mut s = String::new();
    write_value(value, &mut s);
    s
}

/// Whether a character is ASCII whitespace as `u8::is_ascii_whitespace`
/// counts it.
pub open spec fn xml_ws(c: char) -> bool {
    c == ' ' || c == '\t' || c == '\n' || c == '\x0C' || c == '\r'
}

/// The position after the whitespace from `pos` on.
pub open spec fn skip_ws_from(s: Seq<char>, pos: int) -> int
    decreases s.len() - pos,
{
    if 0 <= pos < s.len() && xml_ws(s[pos]) {
        skip_ws_from(s, pos + 1)
    } else {
        pos
    }
}

/// Whether `lit` stands in `s` at `pos`.
pub open spec fn starts_at(s: Seq<char>, pos: int, lit: Seq<char>) -> bool {
    0 <= pos && pos + lit.len() <= s.len() && s.subrange(pos, pos + lit.len()) == lit
}

/// The first position from `pos` on that holds `ch`, or -1.
pub open spec fn index_from(s: Seq<char>, pos: int, ch: char) -> int
    decreases s.len() - pos,
{
    if pos < 0 || pos >= s.len() {
        -1
    } else if s[pos] == ch {
        pos
    } else {
        index_from(s, pos + 1, ch)
    }
}

/// The message of malformed tags.
pub open spec fn malformed() -> Seq<char> {
    "serde.from_xml encountered malformed tags"@
}

/// Whether text is a float literal that `str::parse::<f64>` accepts: an
/// optional sign, then `inf`, `infinity` or `nan` in any case, or decimal
/// digits with an optional point and at least one digit, and an optional
/// exponent `e` or `E` with an optional sign and digits.
pub open spec fn float_literal(s: Seq<char>) -> bool {
    let t = if s.len() > 0 && (s[0] == '+' || s[0] == '-') { s.drop_first() } else { s };
    special_float(t) || decimal_float(t)
}

/// ASCII lowercase of a character.
pub open spec fn lower_ascii(c: char) -> char {
    if 'A' <= c <= 'Z' { (((c as u8) + 32) as u8) as char } else { c }
}

/// `inf`, `infinity` or `nan` in any case.
pub open spec fn special_float(t: Seq<char>) -> bool {
    let l = t.map_values(|c: char| lower_ascii(c));
    l == "inf"@ || l == "infinity"@ || l == "nan"@
}

/// Whether every character is a decimal digit.
pub open spec fn all_digits(t: Seq<char>) -> bool {
    forall|i: int| 0 <= i < t.len() ==> '0' <= #[trigger] t[i] <= '9'
}

/// The position of the first `e` or `E`, or the length.
pub open spec fn exponent_mark(t: Seq<char>) -> int
    decreases t.len(),
{
    if t.len() == 0 {
        0
    } else if t[0] == 'e' || t[0] == 'E' {
        0
    } else {
        1 + exponent_mark(t.drop_first())
    }
}

/// A decimal float literal without its sign.
pub open spec fn decimal_float(t: Seq<char>) -> bool {
    let m = exponent_mark(t);
    let mant = t.subrange(0, m);
    let exp = t.subrange(m, t.len() as int);
    let dot = index_from(mant, 0, '.');
    let int_part = if dot < 0 { mant } else { mant.subrange(0, dot) };
    let frac = if dot < 0 { Seq::<char>::empty() } else { mant.subrange(dot + 1, mant.len() as int) };
    &&& all_digits(int_part)
    &&& all_digits(frac)
    &&& int_part.len() + frac.len() >= 1
    &&& (exp.len() == 0 || {
        let e = exp.drop_first();
        let digits = if e.len() > 0 && (e[0] == '+' || e[0] == '-') { e.drop_first() } else { e };
        digits.len() >= 1 && all_digits(digits)
    })
}

/// The message of a float literal `str::parse::<f64>` refuses.
pub open spec fn float_error(s: Seq<char>) -> Seq<char> {
    if s.len() == 0 {
        "cannot parse float from empty string"@
    } else {
        "invalid float literal"@
    }
}

/// The value a scalar element's type and text stand for, or its error.
pub open spec fn scalar_value(ty: Seq<char>, text: Seq<char>) -> Result<ValueV, Seq<char>> {
    if ty == "int"@ {
        match bigint_text_value(text) {
            Ok(v) => Ok(ValueV::Int(radix_text(v, 10))),
            Err(m) => Err("serde XML int parse error: "@ + m),
        }
    } else if ty == "number"@ {
        if float_literal(text) {
            Ok(ValueV::Number(text))
        } else {
            Err("serde XML number parse error: "@ + float_error(text))
        }
    } else if ty == "bool"@ {
        Ok(ValueV::Bool(text == "true"@))
    } else {
        Ok(ValueV::Str(text))
    }
}

/// Whether a type names a scalar.
pub open spec fn scalar_type(ty: Seq<char>) -> bool {
    ty == "int"@ || ty == "number"@ || ty == "bool"@ || ty == "string"@
}

/// The value element at `pos` and the position after it, or the message
/// of the first error.
pub open spec fn xml_value_at(s: Seq<char>, pos: int) -> Result<(ValueV, int), Seq<char>>
    decreases s.len() - pos, 1nat,
{
    let p0 = skip_ws_from(s, pos);
    if pos < 0 || p0 < pos || !starts_at(s, p0, "<value"@) {
        Err(malformed())
    } else {
        let p1 = skip_ws_from(s, p0 + 6);
        if p1 < p0 + 6 || !starts_at(s, p1, "type=\""@) {
            Err(malformed())
        } else {
            let q = index_from(s, p1 + 6, '"');
            if q < p1 + 6 {
                Err("serde.from_xml reached the end of the document unexpectedly"@)
            } else {
                let ty = s.subrange(p1 + 6, q);
                let p2 = skip_ws_from(s, q + 1);
                if p2 < q + 1 || !starts_at(s, p2, ">"@) {
                    Err(malformed())
                } else if ty == "tuple"@ {
                    proof {
                        reveal_strlit(">");
                    }
                    match xml_items_at(s, p2 + 1, Seq::empty()) {
                        Err(m) => Err(m),
                        Ok((items, p3)) => {
                            let p4 = skip_ws_from(s, p3);
                            if starts_at(s, p4, "</value>"@) {
                                Ok((ValueV::Tuple(items), p4 + 8))
                            } else {
                                Err(malformed())
                            }
                        },
                    }
                } else if scalar_type(ty) {
                    let lt = index_from(s, p2 + 1, '<');
                    let end = if lt < 0 { s.len() as int } else { lt };
                    match xml_unescaped(s.subrange(p2 + 1, end)) {
                        Err(m) => Err(m),
                        Ok(text) => match scalar_value(ty, text) {
                            Err(m) => Err(m),
                            Ok(v) => {
                                let p4 = skip_ws_from(s, end);
                                if starts_at(s, p4, "</value>"@) {
                                    Ok((v, p4 + 8))
                                } else {
                                    Err(malformed())
                                }
                            },
                        },
                    }
                } else {
                    Err("serde XML type is not supported"@)
                }
            }
        }
    }
}

/// The `<item>` elements from `pos` on up to the closing `</value>`,
/// after the items in `acc`, and the position of that closing tag.
pub open spec fn xml_items_at(s: Seq<char>, pos: int, acc: Seq<ValueV>) -> Result<(Seq<ValueV>, int), Seq<char>>
    decreases s.len() - pos, 0nat,
{
    let p0 = skip_ws_from(s, pos);
    if pos < 0 || p0 < pos {
        Err(malformed())
    } else if starts_at(s, p0, "</value>"@) {
        Ok((acc, p0))
    } else if !starts_at(s, p0, "<item>"@) {
        Err(malformed())
    } else {
        proof {
            reveal_strlit("<item>");
            reveal_strlit("</item>");
        }
        match xml_value_at(s, p0 + 6) {
            Err(m) => Err(m),
            Ok((v, p1)) => {
                let p2 = skip_ws_from(s, p1);
                if p1 <= pos || p2 < p1 || !starts_at(s, p2, "</item>"@) {
                    Err(malformed())
                } else {
                    xml_items_at(s, p2 + 7, acc.push(v))
                }
            },
        }
    }
}

/// The value a whole XML document holds, or the message of its error.
pub open spec fn xml_document(s: Seq<char>) -> Result<ValueV, Seq<char>> {
    match xml_value_at(s, 0) {
        Err(m) => Err(m),
        Ok((v, p)) => if skip_ws_from(s, p) < s.len() {
            Err("serde.from_xml encountered trailing characters after root"@)
        } else {
            Ok(v)
        },
    }
}

/// Skipping whitespace moves forward and stops within the text.
proof fn lemma_skip_ws(s: Seq<char>, pos: int)
    requires
        0 <= pos <= s.len(),
    ensures
        pos <= skip_ws_from(s, pos) <= s.len(),
    decreases s.len() - pos,
{
    if pos < s.len() && xml_ws(s[pos]) {
        lemma_skip_ws(s, pos + 1);
    }
}

/// A found position lies at or after the start and holds the character;
/// the characters before it from the start do not.
proof fn lemma_index_from(s: Seq<char>, pos: int, ch: char)
    requires
        0 <= pos,
    ensures
        index_from(s, pos, ch) == -1 || (pos <= index_from(s, pos, ch) < s.len() && s[index_from(s, pos, ch)] == ch),
        forall|i: int| pos <= i < s.len() && (index_from(s, pos, ch) == -1 || i < index_from(s, pos, ch)) ==> s[i]
            != ch,
    decreases s.len() - pos,
{
    if pos < s.len() && s[pos] != ch {
        lemma_index_from(s, pos + 1, ch);
    }
}

/// The position after the whitespace from `pos` on
fn skip_ws(c: &Vec<char>, pos: usize) -> (p: usize)
    requires
        pos <= c@.len(),
    ensures
        p == skip_ws_from(c@, pos as int),
        pos <= p <= c@.len(),
{
    let mut p = pos;
    while p < c.len() && (c[p] == ' ' || c[p] == '\t' || c[p] == '\n' || c[p] == '\x0C' || c[p] == '\r')
        invariant
            pos <= p <= c@.len(),
            skip_ws_from(c@, p as int) == skip_ws_from(c@, pos as int),
        decreases c@.len() - p,
    {
        p = p + 1;
    }
    p
}

/// Whether a literal stands at `pos`
fn at(c: &Vec<char>, pos: usize, lit: &str) -> (b: bool)
    requires
        pos <= c@.len(),
    ensures
        b == starts_at(c@, pos as int, lit@),
{
    let l = chars_of(lit);
    if l.len() > c.len() - pos {
        return false;
    }
    let part = chars_of(string_of(c, pos, pos + l.len()).as_str());
    chars_equal(&part, &l)
}

/// The first position from `pos` on that holds `ch`
fn find_from_pos(c: &Vec<char>, pos: usize, ch: char) -> (r: Option<usize>)
    requires
        pos <= c@.len(),
    ensures
        match r {
            Some(i) => i as int == index_from(c@, pos as int, ch) && pos <= i < c@.len(),
            None => index_from(c@, pos as int, ch) == -1,
        },
{
    let mut i = pos;
    while i < c.len()
        invariant
            pos <= i <= c@.len(),
            index_from(c@, i as int, ch) == index_from(c@, pos as int, ch),
        decreases c@.len() - i,
    {
        if c[i] == ch {
            return Some(i);
        }
        i = i + 1;
    }
    None
}

/// The value a scalar element stands for
fn scalar_of(ty: &str, text: String) -> (r: Result<Value, ApexError>)
    requires
        scalar_type(ty@),
    ensures
        match scalar_value(ty@, text@) {
            Ok(v) => r matches Ok(x) && value_v(x) == v,
            Err(m) => r matches Err(e) && e@ == m,
        },
{
    if crate::text::str_equal(ty, "int") {
        match big_parse(text.as_str()) {
            Ok(b) => Ok(Value::Int(b.to_string())),
            Err(e) => {
                let mut m = String::from_str("serde XML int parse error: ");
                m.append(e.as_str());
                Err(ApexError::new(m))
            },
        }
    } else if crate::text::str_equal(ty, "number") {
        if is_float_literal(text.as_str()) {
            Ok(Value::Number(text))
        } else {
            let mut m = String::from_str("serde XML number parse error: ");
            if chars_of(text.as_str()).len() == 0 {
                m.append("cannot parse float from empty string");
            } else {
                m.append("invalid float literal");
            }
            Err(ApexError::new(m))
        }
    } else if crate::text::str_equal(ty, "bool") {
        Ok(Value::Bool(crate::text::str_equal(text.as_str(), "true")))
    } else {
        Ok(Value::String(text))
    }
}


/// Whether `c[from..to]` holds only decimal digits
fn digits_between(c: &Vec<char>, from: usize, to: usize) -> (b: bool)
    requires
        from <= to <= c@.len(),
    ensures
        b == all_digits(c@.subrange(from as int, to as int)),
{
    let mut i = from;
    while i < to
        invariant
            from <= i <= to <= c@.len(),
            forall|k: int| from <= k < i ==> '0' <= #[trigger] c@[k] <= '9',
        decreases to - i,
    {
        if !('0' <= c[i] && c[i] <= '9') {
            assert(!('0' <= c@.subrange(from as int, to as int)[i - from] <= '9'));
            return false;
        }
        i = i + 1;
    }
    true
}

/// The position of the first `e` or `E` in `c[from..to]`, or `to`
fn exponent_at(c: &Vec<char>, from: usize, to: usize) -> (m: usize)
    requires
        from <= to <= c@.len(),
    ensures
        from <= m <= to,
        m - from == exponent_mark(c@.subrange(from as int, to as int)),
{
    let mut i = from;
    while i < to && c[i] != 'e' && c[i] != 'E'
        invariant
            from <= i <= to <= c@.len(),
            exponent_mark(c@.subrange(from as int, to as int)) == (i - from) + exponent_mark(
                c@.subrange(i as int, to as int),
            ),
        decreases to - i,
    {
        proof {
            assert(c@.subrange(i as int, to as int).drop_first() =~= c@.subrange(i + 1, to as int));
        }
        i = i + 1;
    }
    i
}

/// Whether text is a float literal `str::parse::<f64>` accepts
#[verifier::rlimit(60)]
pub(crate) fn is_float_literal(s: &str) -> (b: bool)
    ensures
        b == float_literal(s@),
{
    let c = chars_of(s);
    let n = c.len();
    let start: usize = if n > 0 && (c[0] == '+' || c[0] == '-') { 1 } else { 0 };
    let ghost t = if s@.len() > 0 && (s@[0] == '+' || s@[0] == '-') { s@.drop_first() } else { s@ };
    assert(t =~= c@.subrange(start as int, n as int));
    let mut lowered: Vec<char> = Vec::new();
    let mut i = start;
    while i < n
        invariant
            start <= i <= n == c@.len(),
            t == c@.subrange(start as int, n as int),
            lowered@ == t.take(i - start).map_values(|ch: char| lower_ascii(ch)),
        decreases n - i,
    {
        let ch = c[i];
        let low = if 'A' <= ch && ch <= 'Z' { ((ch as u8) + 32) as char } else { ch };
        lowered.push(low);
        proof {
            assert(t.take(i + 1 - start) =~= t.take(i - start).push(ch));
            assert(lowered@ =~= t.take(i + 1 - start).map_values(|x: char| lower_ascii(x)));
        }
        i = i + 1;
    }
    assert(t.take(n - start) =~= t);
    let inf = chars_of("inf");
    let infinity = chars_of("infinity");
    let nan = chars_of("nan");
    if chars_equal(&lowered, &inf) || chars_equal(&lowered, &infinity) || chars_equal(&lowered, &nan) {
        return true;
    }
    let m = exponent_at(&c, start, n);
    let ghost mant = t.subrange(0, m - start);
    assert(mant =~= c@.subrange(start as int, m as int));
    let (int_end, frac_start, has_dot) = match find_from_pos(&c, start, '.') {
        Some(d) if d < m => (d, d + 1, true),
        _ => (m, m, false),
    };
    proof {
        lemma_index_from(mant, 0, '.');
        lemma_index_from(c@, start as int, '.');
        if has_dot {
            assert(mant[int_end - start] == '.');
            assert forall|k: int| 0 <= k < int_end - start implies mant[k] != '.' by {
                assert(mant[k] == c@[k + start]);
            }
            lemma_first_dot(mant, int_end - start);
            assert(mant.subrange(0, int_end - start) =~= c@.subrange(start as int, int_end as int));
            assert(mant.subrange(int_end - start + 1, mant.len() as int) =~= c@.subrange(frac_start as int, m as int));
        } else {
            assert forall|k: int| 0 <= k < mant.len() implies mant[k] != '.' by {
                assert(mant[k] == c@[k + start]);
            }
            lemma_no_dot(mant);
        }
    }
    if !digits_between(&c, start, int_end) || !digits_between(&c, frac_start, m) {
        proof {
            if !has_dot {
                assert(c@.subrange(frac_start as int, m as int) =~= Seq::<char>::empty());
            }
        }
        return false;
    }
    if (int_end - start) + (m - frac_start) < 1 {
        return false;
    }
    if m == n {
        assert(t.subrange(m - start, t.len() as int) =~= Seq::<char>::empty());
        return true;
    }
    let e_start: usize = if m + 1 < n && (c[m + 1] == '+' || c[m + 1] == '-') { m + 2 } else { m + 1 };
    proof {
        let exp = t.subrange(m - start, t.len() as int);
        assert(exp.drop_first() =~= c@.subrange(m + 1, n as int));
        if m + 1 < n && (c@[m + 1] == '+' || c@[m + 1] == '-') {
            assert(exp.drop_first().drop_first() =~= c@.subrange(e_start as int, n as int));
        }
    }
    e_start < n && digits_between(&c, e_start, n)
}

/// Without a dot the search gives -1.
proof fn lemma_no_dot(s: Seq<char>)
    requires
        forall|k: int| 0 <= k < s.len() ==> s[k] != '.',
    ensures
        index_from(s, 0, '.') == -1,
{
    lemma_index_from(s, 0, '.');
}

/// The first dot is where the search finds it.
proof fn lemma_first_dot(s: Seq<char>, d: int)
    requires
        0 <= d < s.len(),
        s[d] == '.',
        forall|k: int| 0 <= k < d ==> s[k] != '.',
    ensures
        index_from(s, 0, '.') == d,
{
    lemma_index_from(s, 0, '.');
}

/// Parsing a value moves past its start; parsing items does not move back.
proof fn lemma_parse_advances(s: Seq<char>, pos: int)
    ensures
        xml_value_at(s, pos) matches Ok((_, p)) ==> p > pos && p <= s.len(),
    decreases s.len() - pos,
{
    reveal_strlit("<value");
    reveal_strlit("type=\"");
    reveal_strlit(">");
    reveal_strlit("</value>");
    let p0 = skip_ws_from(s, pos);
    if pos >= 0 && p0 >= pos && starts_at(s, p0, "<value"@) {
        let p1 = skip_ws_from(s, p0 + 6);
        if p1 >= p0 + 6 && starts_at(s, p1, "type=\""@) {
            let q = index_from(s, p1 + 6, '"');
            lemma_index_from(s, p1 + 6, '"');
            if q >= p1 + 6 {
                let p2 = skip_ws_from(s, q + 1);
                if p2 >= q + 1 && starts_at(s, p2, ">"@) {
                    lemma_items_advance(s, p2 + 1, Seq::empty());
                    match xml_items_at(s, p2 + 1, Seq::empty()) {
                        Ok((_, p3)) => {
                            lemma_items_bound(s, p2 + 1, Seq::empty());
                            lemma_skip_ws(s, p3);
                        },
                        Err(_) => {},
                    }
                    let lt = index_from(s, p2 + 1, '<');
                    lemma_index_from(s, p2 + 1, '<');
                    let end = if lt < 0 { s.len() as int } else { lt };
                    lemma_skip_ws(s, end);
                }
            }
        }
    }
}

/// Parsed items end within the text.
proof fn lemma_items_bound(s: Seq<char>, pos: int, acc: Seq<ValueV>)
    ensures
        xml_items_at(s, pos, acc) matches Ok((_, p)) ==> p <= s.len(),
    decreases s.len() - pos,
{
    reveal_strlit("</value>");
    reveal_strlit("<item>");
    reveal_strlit("</item>");
    let p0 = skip_ws_from(s, pos);
    if pos >= 0 && p0 >= pos && !starts_at(s, p0, "</value>"@) && starts_at(s, p0, "<item>"@) {
        match xml_value_at(s, p0 + 6) {
            Err(_) => {},
            Ok((v, p1)) => {
                let p2 = skip_ws_from(s, p1);
                if p1 > pos && p2 >= p1 && starts_at(s, p2, "</item>"@) {
                    lemma_items_bound(s, p2 + 7, acc.push(v));
                }
            },
        }
    }
}

proof fn lemma_items_advance(s: Seq<char>, pos: int, acc: Seq<ValueV>)
    ensures
        xml_items_at(s, pos, acc) matches Ok((_, p)) ==> p >= pos,
    decreases s.len() - pos,
{
    reveal_strlit("</value>");
    reveal_strlit("<item>");
    reveal_strlit("</item>");
    let p0 = skip_ws_from(s, pos);
    if pos >= 0 && p0 >= pos && !starts_at(s, p0, "</value>"@) && starts_at(s, p0, "<item>"@) {
        match xml_value_at(s, p0 + 6) {
            Err(_) => {},
            Ok((v, p1)) => {
                let p2 = skip_ws_from(s, p1);
                if p1 > pos && p2 >= p1 && starts_at(s, p2, "</item>"@) {
                    lemma_items_advance(s, p2 + 7, acc.push(v));
                }
            },
        }
    }
}

/// The value element at `pos` and the position after it
fn parse_value_at(c: &Vec<char>, pos: usize) -> (r: Result<(Value, usize), ApexError>)
    requires
        pos <= c@.len(),
    ensures
        match xml_value_at(c@, pos as int) {
            Ok((v, p)) => r matches Ok((x, q)) && value_v(x) == v && q as int == p,
            Err(m) => r matches Err(e) && e@ == m,
        },
        r matches Ok((_, q)) ==> pos < q <= c@.len(),
    decreases c@.len() - pos, 1nat,
{
    proof {
        reveal_strlit("<value");
        reveal_strlit("type=\"");
        reveal_strlit(">");
        reveal_strlit("</value>");
        lemma_parse_advances(c@, pos as int);
    }
    let n = c.len();
    let p0 = skip_ws(c, pos);
    if !at(c, p0, "<value") {
        return Err(ApexError::new(String::from_str("serde.from_xml encountered malformed tags")));
    }
    assert("<value"@.len() == 6);
    assert(p0 + 6 <= c@.len());
    let p1 = skip_ws(c, p0 + 6);
    if !at(c, p1, "type=\"") {
        return Err(ApexError::new(String::from_str("serde.from_xml encountered malformed tags")));
    }
    let q = match find_from_pos(c, p1 + 6, '"') {
        Some(q) => q,
        None => {
            return Err(ApexError::new(String::from_str("serde.from_xml reached the end of the document unexpectedly")));
        },
    };
    let ty = string_of(c, p1 + 6, q);
    let p2 = skip_ws(c, q + 1);
    if !at(c, p2, ">") {
        return Err(ApexError::new(String::from_str("serde.from_xml encountered malformed tags")));
    }
    if crate::text::str_equal(ty.as_str(), "tuple") {
        let (items, p3) = match parse_items_at(c, p2 + 1) {
            Ok(x) => x,
            Err(e) => return Err(e),
        };
        let p4 = skip_ws(c, p3);
        if at(c, p4, "</value>") {
            let ghost iv = items@;
            let result = Value::Tuple(items);
            proof {
                let ys = match value_v(result) {
                    ValueV::Tuple(ys) => ys,
                    _ => Seq::empty(),
                };
                assert(value_v(result) is Tuple);
                assert(ys.len() == iv.len());
                assert forall|i: int| 0 <= i < ys.len() implies ys[i] == value_v(iv[i]) by {}
                assert(ys =~= iv.map_values(|x: Value| value_v(x)));
            }
            return Ok((result, p4 + 8));
        }
        return Err(ApexError::new(String::from_str("serde.from_xml encountered malformed tags")));
    }
    let scalar = crate::text::str_equal(ty.as_str(), "int") || crate::text::str_equal(ty.as_str(), "number")
        || crate::text::str_equal(ty.as_str(), "bool") || crate::text::str_equal(ty.as_str(), "string");
    if !scalar {
        return Err(ApexError::new(String::from_str("serde XML type is not supported")));
    }
    let end = match find_from_pos(c, p2 + 1, '<') {
        Some(i) => i,
        None => c.len(),
    };
    let raw = string_of(c, p2 + 1, end);
    let text = match unescape_xml(raw.as_str()) {
        Ok(t) => t,
        Err(e) => return Err(e),
    };
    let value = match scalar_of(ty.as_str(), text) {
        Ok(v) => v,
        Err(e) => return Err(e),
    };
    let p4 = skip_ws(c, end);
    if at(c, p4, "</value>") {
        Ok((value, p4 + 8))
    } else {
        Err(ApexError::new(String::from_str("serde.from_xml encountered malformed tags")))
    }
}

/// The `<item>` elements from `pos` on and the position of the closing tag
fn parse_items_at(c: &Vec<char>, pos: usize) -> (r: Result<(Vec<Value>, usize), ApexError>)
    requires
        pos <= c@.len(),
    ensures
        match xml_items_at(c@, pos as int, Seq::empty()) {
            Ok((vs, p)) => r matches Ok((xs, q)) && xs@.map_values(|x: Value| value_v(x)) == vs && q as int == p,
            Err(m) => r matches Err(e) && e@ == m,
        },
        r matches Ok((_, q)) ==> pos <= q <= c@.len(),
    decreases c@.len() - pos, 0nat,
{
    proof {
        reveal_strlit("</value>");
        reveal_strlit("<item>");
        reveal_strlit("</item>");
    }
    let n = c.len();
    let mut items: Vec<Value> = Vec::new();
    let mut p = pos;
    let ghost whole = xml_items_at(c@, pos as int, Seq::empty());
    assert(items@.map_values(|x: Value| value_v(x)) =~= Seq::<ValueV>::empty());
    loop
        invariant
            pos <= p <= c@.len(),
            n == c@.len(),
            whole == xml_items_at(c@, pos as int, Seq::empty()),
            whole == xml_items_at(c@, p as int, items@.map_values(|x: Value| value_v(x))),
        decreases c@.len() - p,
    {
        proof {
            reveal_strlit("</value>");
            reveal_strlit("<item>");
            reveal_strlit("</item>");
        }
        let p0 = skip_ws(c, p);
        if at(c, p0, "</value>") {
            return Ok((items, p0));
        }
        if !at(c, p0, "<item>") {
            return Err(ApexError::new(String::from_str("serde.from_xml encountered malformed tags")));
        }
        let (item, p1) = match parse_value_at(c, p0 + 6) {
            Ok(x) => x,
            Err(e) => return Err(e),
        };
        proof {
            lemma_parse_advances(c@, p0 + 6);
        }
        let p2 = skip_ws(c, p1);
        if !at(c, p2, "</item>") {
            return Err(ApexError::new(String::from_str("serde.from_xml encountered malformed tags")));
        }
        let ghost before = items@.map_values(|x: Value| value_v(x));
        items.push(item);
        proof {
            assert(items@.map_values(|x: Value| value_v(x)) =~= before.push(value_v(item)));
        }
        p = p2 + 7;
    }
}

/// The value an XML document holds
pub fn xml_to_value(xml: &str) -> (r: Result<Value, ApexError>)
    ensures
        match xml_document(xml@) {
            Ok(v) => r matches Ok(x) && value_v(x) == v,
            Err(m) => r matches Err(e) && e@ == m,
        },
{
    let c = chars_of(xml);
    let (value, p) = match parse_value_at(&c, 0) {
        Ok(x) => x,
        Err(e) => return Err(e),
    };
    let q = skip_ws(&c, p);
    if q < c.len() {
        return Err(ApexError::new(String::from_str("serde.from_xml encountered trailing characters after root")));
    }
    Ok(value)
}

} // verus!
