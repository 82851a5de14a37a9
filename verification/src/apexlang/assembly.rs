//! Operands of ApexLang's inline assembly.

use vstd::prelude::*;
use crate::apexlang::error::ApexError;
use crate::forge::math::{
    big_and, big_from_i64, big_or, big_parse_bytes, big_xor, bigint_radix_value, int_and, int_or, int_xor,
    AFNSBigInt,
};
use crate::text::{
    whitespace, chars_of, drop_whitespace, find_between, first_index_of, is_whitespace, lowercase,
    skip_whitespace, string_of, to_lowercase, trim_start_ws, trim_ws, utf8_len, utf8_width,
};

verus! {

/// The value of decimal digits read after `acc`, or None at a character
/// that is no digit or once the value leaves the range of `usize`.
pub open spec fn unsigned_digits(d: Seq<char>, acc: int) -> Option<int>
    decreases d.len(),
{
    if d.len() == 0 {
        Some(acc)
    } else if !('0' <= d[0] <= '9') {
        None
    } else {
        let v = acc * 10 + (d[0] as int - 48);
        if v > usize::MAX {
            None
        } else {
            unsigned_digits(d.drop_first(), v)
        }
    }
}

/// The `usize` that text spells for `str::parse::<usize>`: an optional
/// '+', then decimal digits; None when it spells none.
pub open spec fn parse_usize_text(s: Seq<char>) -> Option<int> {
    if s.len() == 0 || ((s[0] == '+' || s[0] == '-') && s.len() == 1) {
        None
    } else {
        unsigned_digits(if s[0] == '+' { s.drop_first() } else { s }, 0)
    }
}

/// The message of an operand that is no register.
pub open spec fn not_register(token: Seq<char>) -> Seq<char> {
    "Expected register operand but found '"@ + token + "'"@
}

/// The message of a register whose number does not parse.
pub open spec fn bad_register(token: Seq<char>) -> Seq<char> {
    "Unable to parse register '"@ + token + "'"@
}

fn bad_register_error(token: &str) -> (e: ApexError)
    ensures
        e@ == bad_register(token@),
{
    let mut m = String::from_str("Unable to parse register '");
    m.append(token);
    m.append("'");
    ApexError::new(m)
}

/// The register number an operand names, or the message of the error.
pub open spec fn register_of(token: Seq<char>) -> Result<int, Seq<char>> {
    if !(token.len() > 0 && token[0] == 'r') {
        Err(not_register(token))
    } else {
        match parse_usize_text(token.drop_first()) {
            Some(n) => Ok(n),
            None => Err(bad_register(token)),
        }
    }
}

/// Digits read into a number within `usize` keep it there.
proof fn lemma_unsigned_digits_bound(d: Seq<char>, acc: int)
    requires
        0 <= acc <= usize::MAX,
    ensures
        unsigned_digits(d, acc) matches Some(v) ==> 0 <= v <= usize::MAX,
    decreases d.len(),
{
    if d.len() > 0 && '0' <= d[0] <= '9' {
        let v = acc * 10 + (d[0] as int - 48);
        if v <= usize::MAX {
            lemma_unsigned_digits_bound(d.drop_first(), v);
        }
    }
}

/// A register number fits in `usize`.
pub proof fn lemma_register_bound(token: Seq<char>)
    ensures
        register_of(token) matches Ok(n) ==> 0 <= n <= usize::MAX,
{
    if token.len() > 0 && token[0] == 'r' {
        let s = token.drop_first();
        if !(s.len() == 0 || ((s[0] == '+' || s[0] == '-') && s.len() == 1)) {
            lemma_unsigned_digits_bound(if s[0] == '+' { s.drop_first() } else { s }, 0);
        }
    }
}

/// The number of a register operand `r<n>`
pub fn parse_register(token: &str) -> (r: Result<usize, ApexError>)
    ensures
        match register_of(token@) {
            Ok(n) => r == Ok::<usize, ApexError>(n as usize),
            Err(m) => r matches Err(e) && e@ == m,
        },
        !(token@.len() > 0 && token@[0] == 'r') ==> (r matches Err(e) && e@ == not_register(token@)),
        token@.len() > 0 && token@[0] == 'r' ==> match parse_usize_text(token@.drop_first()) {
            Some(n) => r == Ok::<usize, ApexError>(n as usize),
            None => r matches Err(e) && e@ == bad_register(token@),
        },
{
    let c = crate::text::chars_of(token);
    if c.len() == 0 || c[0] != 'r' {
        let mut m = String::from_str("Expected register operand but found '");
        m.append(token);
        m.append("'");
        return Err(ApexError::new(m));
    }
    let n = c.len();
    let ghost s = c@.drop_first();
    assert(s =~= c@.subrange(1, n as int));
    if n == 1 || (n == 2 && (c[1] == '+' || c[1] == '-')) {
        return Err(bad_register_error(token));
    }
    let mut i: usize = if c[1] == '+' { 2 } else { 1 };
    let mut acc: usize = 0;
    proof {
        if c[1] == '+' {
            assert(s.drop_first() =~= c@.subrange(2, n as int));
        }
    }
    while i < n
        invariant
            1 <= i <= n == c@.len(),
            c@ == token@,
            c@[0] == 'r',
            s == token@.drop_first(),
            parse_usize_text(s) == unsigned_digits(c@.subrange(i as int, n as int), acc as int),
        decreases n - i,
    {
        let ch = c[i];
        proof {
            assert(c@.subrange(i as int, n as int)[0] == ch);
            assert(c@.subrange(i as int, n as int).drop_first() =~= c@.subrange(i + 1, n as int));
        }
        if !('0' <= ch && ch <= '9') {
            return Err(bad_register_error(token));
        }
        let digit = (ch as u32 - 48) as usize;
        if acc > (usize::MAX - digit) / 10 {
            proof {
                assert(acc * 10 + digit > usize::MAX) by (nonlinear_arith)
                    requires
                        acc > (usize::MAX - digit) / 10,
                        digit <= 9,
                ;
            }
            return Err(bad_register_error(token));
        }
        proof {
            assert(acc * 10 + digit <= usize::MAX) by (nonlinear_arith)
                requires
                    acc <= (usize::MAX - digit) / 10,
                    digit <= 9,
            ;
        }
        acc = acc * 10 + digit;
        i = i + 1;
    }
    proof {
        assert(c@.subrange(i as int, n as int) =~= Seq::<char>::empty());
    }
    Ok(acc)
}


/// The number of characters before the first whitespace.
pub open spec fn word_len(t: Seq<char>) -> nat
    decreases t.len(),
{
    if t.len() == 0 || whitespace(t[0]) {
        0
    } else {
        1 + word_len(t.drop_first())
    }
}

/// The first whitespace-separated word of a line; empty when there is none.
pub open spec fn first_word(s: Seq<char>) -> Seq<char> {
    let t = trim_start_ws(s);
    t.take(word_len(t) as int)
}

/// The number of characters whose UTF-8 encoding takes the first `k`
/// bytes of `s`; None when byte `k` falls inside a character or past the
/// end.
pub open spec fn char_index_at_byte(s: Seq<char>, k: int) -> Option<int>
    decreases s.len(),
{
    if k == 0 {
        Some(0)
    } else if s.len() == 0 || k < 0 {
        None
    } else {
        match char_index_at_byte(s.drop_first(), k - utf8_width(s[0])) {
            Some(p) => Some(p + 1),
            None => None,
        }
    }
}

/// A part of the operand list: nothing when it is empty once trimmed.
pub open spec fn operand_part(t: Seq<char>) -> Seq<Seq<char>> {
    let x = trim_ws(t);
    if x.len() == 0 {
        Seq::empty()
    } else {
        seq![x]
    }
}

/// The operands of an instruction: its text after the opcode split at
/// commas, each trimmed, the empty ones left out.
pub open spec fn operand_items(t: Seq<char>) -> Seq<Seq<char>>
    decreases t.len(),
{
    let comma = first_index_of(t, ',');
    if comma < 0 || comma >= t.len() {
        operand_part(t)
    } else {
        operand_part(t.subrange(0, comma)) + operand_items(t.subrange(comma + 1, t.len() as int))
    }
}

/// The opcode of a line: its first word in lowercase.
pub open spec fn opcode_of(line: Seq<char>) -> Seq<char> {
    lowercase(first_word(line))
}

/// Whether the opcode's length in bytes falls between two characters of
/// the line, where the operands are read from.
pub open spec fn operands_readable(line: Seq<char>) -> bool {
    first_word(line).len() == 0 || char_index_at_byte(line, utf8_len(opcode_of(line)) as int) is Some
}

/// The operands of a line: what follows as many bytes as its opcode takes.
pub open spec fn operands_of(line: Seq<char>) -> Seq<Seq<char>> {
    match char_index_at_byte(line, utf8_len(opcode_of(line)) as int) {
        Some(p) => operand_items(trim_ws(line.subrange(p, line.len() as int))),
        None => Seq::empty(),
    }
}

/// Whether an opcode takes a destination register and a value.
pub open spec fn is_binary_opcode(op: Seq<char>) -> bool {
    op == "mov"@ || op == "add"@ || op == "sub"@ || op == "mul"@ || op == "and"@ || op == "or"@ || op
        == "xor"@
}

/// The new value of the destination register.
pub open spec fn binary_result(op: Seq<char>, a: int, b: int) -> int {
    if op == "mov"@ {
        b
    } else if op == "add"@ {
        a + b
    } else if op == "sub"@ {
        a - b
    } else if op == "mul"@ {
        a * b
    } else if op == "and"@ {
        int_and(a, b)
    } else if op == "or"@ {
        int_or(a, b)
    } else {
        int_xor(a, b)
    }
}

/// The values of registers.
pub open spec fn register_values(r: Seq<AFNSBigInt>) -> Seq<int> {
    r.map_values(|b: AFNSBigInt| b@)
}

/// The value of an operand: a register's value, a hexadecimal literal
/// after `0x`, or a decimal literal; or the message of the error.
pub open spec fn operand_value(tok: Seq<char>, regs: Seq<int>) -> Result<int, Seq<char>> {
    if tok.len() > 0 && tok[0] == 'r' {
        match register_of(tok) {
            Err(m) => Err(m),
            Ok(i) => if i < regs.len() {
                Ok(regs[i])
            } else {
                Err("Register '"@ + tok + "' is out of range"@)
            },
        }
    } else if tok.len() >= 2 && tok[0] == '0' && tok[1] == 'x' {
        match bigint_radix_value(tok.subrange(2, tok.len() as int), 16) {
            Ok(v) => Ok(v),
            Err(_) => Err("Unable to parse hexadecimal literal '"@ + tok + "'"@),
        }
    } else {
        match bigint_radix_value(tok, 10) {
            Ok(v) => Ok(v),
            Err(_) => Err("Unable to parse literal '"@ + tok + "'"@),
        }
    }
}

/// The registers after one instruction, or the message of its error.
pub open spec fn instruction_result(line: Seq<char>, regs: Seq<int>) -> Result<Seq<int>, Seq<char>> {
    if first_word(line).len() == 0 {
        Err("Inline assembly instruction is empty"@)
    } else {
        let op = opcode_of(line);
        let ops = operands_of(line);
        if op == "nop"@ {
            if ops.len() == 0 {
                Ok(regs)
            } else {
                Err("nop does not accept operands"@)
            }
        } else if is_binary_opcode(op) {
            if ops.len() != 2 {
                Err(op + " expects exactly two operands"@)
            } else {
                match register_of(ops[0]) {
                    Err(m) => Err(m),
                    Ok(d) => if d >= regs.len() {
                        Err("Register index out of range"@)
                    } else {
                        match operand_value(ops[1], regs) {
                            Err(m) => Err(m),
                            Ok(v) => Ok(regs.update(d, binary_result(op, regs[d], v))),
                        }
                    },
                }
            }
        } else {
            Err("Unsupported opcode '"@ + op + "'"@)
        }
    }
}

/// An instruction that succeeds leaves as many registers as there were and
/// changes none but its destination, the register its first operand names.
pub proof fn lemma_instruction_changes_only_destination(line: Seq<char>, regs: Seq<int>)
    ensures
        instruction_result(line, regs) matches Ok(after) ==> after.len() == regs.len() && forall|i: int|
            0 <= i < regs.len() && register_of(operands_of(line)[0]) != Ok::<int, Seq<char>>(i)
                ==> #[trigger] after[i] == regs[i],
{
    if let Ok(after) = instruction_result(line, regs) {
        let op = opcode_of(line);
        let ops = operands_of(line);
        if op != "nop"@ {
            assert(register_of(ops[0]) is Ok);
            lemma_register_bound(ops[0]);
            let d = register_of(ops[0])->Ok_0;
            assert(operand_value(ops[1], regs) is Ok);
            let v = operand_value(ops[1], regs)->Ok_0;
            let w = binary_result(op, regs[d], v);
            assert(after == regs.update(d, w));
            assert forall|i: int| 0 <= i < regs.len() && register_of(ops[0]) != Ok::<int, Seq<char>>(i) implies
                #[trigger] after[i] == regs[i] by {
                assert(register_of(ops[0]) == Ok::<int, Seq<char>>(d));
                assert(i != d);
                assert(regs.update(d, w)[i] == regs[i]);
            }
        } else {
            assert(after == regs);
        }
    }
}

/// Text with its leading whitespace taken off starts with no whitespace.
pub(crate) proof fn lemma_trim_start_first(s: Seq<char>)
    ensures
        trim_start_ws(s).len() > 0 ==> !whitespace(trim_start_ws(s)[0]),
    decreases s.len(),
{
    if s.len() > 0 && whitespace(s[0]) {
        lemma_trim_start_first(s.drop_first());
    }
}

/// A character position found by its byte position lies within the text.
proof fn lemma_char_index_bound(s: Seq<char>, k: int)
    ensures
        char_index_at_byte(s, k) matches Some(p) ==> 0 <= p <= s.len(),
    decreases s.len(),
{
    if k != 0 && s.len() > 0 && k >= 0 {
        lemma_char_index_bound(s.drop_first(), k - utf8_width(s[0]));
    }
}

/// Where the word that starts at `from` ends.
fn word_end(c: &Vec<char>, from: usize) -> (b: usize)
    requires
        from <= c@.len(),
    ensures
        from <= b <= c@.len(),
        b - from == word_len(c@.subrange(from as int, c@.len() as int)),
{
    let mut b = from;
    while b < c.len() && !is_whitespace(c[b])
        invariant
            from <= b <= c@.len(),
            word_len(c@.subrange(from as int, c@.len() as int)) == (b - from) + word_len(
                c@.subrange(b as int, c@.len() as int),
            ),
        decreases c@.len() - b,
    {
        proof {
            assert(c@.subrange(b as int, c@.len() as int).drop_first() =~= c@.subrange(b + 1, c@.len() as int));
        }
        b = b + 1;
    }
    b
}

/// The UTF-8 length of characters, in bytes.
fn utf8_bytes(v: &Vec<char>) -> (n: u128)
    ensures
        n == utf8_len(v@),
{
    let mut n: u128 = 0;
    let mut i: usize = 0;
    while i < v.len()
        invariant
            i <= v@.len(),
            n == utf8_len(v@.subrange(0, i as int)),
            n <= 4 * i,
        decreases v@.len() - i,
    {
        let u = v[i] as u32;
        let w: u128 = if u <= 0x7F {
            1
        } else if u <= 0x7FF {
            2
        } else if u <= 0xFFFF {
            3
        } else {
            4
        };
        proof {
            crate::text::lemma_utf8_len_push(v@.subrange(0, i as int), v@[i as int]);
            assert(v@.subrange(0, i + 1) =~= v@.subrange(0, i as int).push(v@[i as int]));
        }
        n = n + w;
        i = i + 1;
    }
    assert(v@.subrange(0, i as int) =~= v@);
    n
}

/// The number of characters of `v` that take the first `k` bytes, if
/// byte `k` starts a character or ends the text.
fn char_at_byte(v: &Vec<char>, k: u128) -> (r: Option<usize>)
    ensures
        match char_index_at_byte(v@, k as int) {
            Some(p) => r == Some(p as usize),
            None => r is None,
        },
{
    let mut p: usize = 0;
    let mut rem: u128 = k;
    assert(v@.subrange(0, v@.len() as int) =~= v@);
    while rem > 0
        invariant
            p <= v@.len(),
            char_index_at_byte(v@, k as int) == match char_index_at_byte(
                v@.subrange(p as int, v@.len() as int),
                rem as int,
            ) {
                Some(q) => Some(q + p),
                None => None::<int>,
            },
        decreases rem,
    {
        if p == v.len() {
            assert(v@.subrange(p as int, v@.len() as int).len() == 0);
            return None;
        }
        let u = v[p] as u32;
        let w: u128 = if u <= 0x7F {
            1
        } else if u <= 0x7FF {
            2
        } else if u <= 0xFFFF {
            3
        } else {
            4
        };
        proof {
            let t = v@.subrange(p as int, v@.len() as int);
            assert(t[0] == v@[p as int]);
            assert(t.drop_first() =~= v@.subrange(p + 1, v@.len() as int));
        }
        assert(w == utf8_width(v@[p as int]));
        if w > rem {
            proof {
                let t = v@.subrange(p as int, v@.len() as int);
                assert(char_index_at_byte(t.drop_first(), rem - w) is None);
            }
            return None;
        }
        rem = rem - w;
        p = p + 1;
    }
    assert(char_index_at_byte(v@.subrange(p as int, v@.len() as int), 0) == Some(0int));
    Some(p)
}

/// Appends the operand of `c[from..to]`, if it is not empty once trimmed.
fn push_operand(out: &mut Vec<String>, c: &Vec<char>, from: usize, to: usize)
    requires
        from <= to <= c@.len(),
    ensures
        crate::text::views(final(out)@) == crate::text::views(old(out)@) + operand_part(
            c@.subrange(from as int, to as int),
        ),
{
    let a = skip_whitespace(c, from, to);
    let b = drop_whitespace(c, a, to);
    proof {
        assert(c@.subrange(a as int, b as int) == trim_ws(c@.subrange(from as int, to as int)));
    }
    if a < b {
        let item = string_of(c, a, b);
        let ghost before = crate::text::views(out@);
        out.push(item);
        assert(crate::text::views(out@) =~= before + seq![item@]);
    } else {
        assert(operand_part(c@.subrange(from as int, to as int)) =~= Seq::<Seq<char>>::empty());
        assert(crate::text::views(out@) + Seq::<Seq<char>>::empty() =~= crate::text::views(out@));
    }
}

/// The operands in `c[from..to]`.
fn operand_list(c: &Vec<char>, from: usize, to: usize) -> (v: Vec<String>)
    requires
        from <= to <= c@.len(),
    ensures
        crate::text::views(v@) == operand_items(c@.subrange(from as int, to as int)),
{
    let mut out: Vec<String> = Vec::new();
    let mut start = from;
    assert(crate::text::views(out@) =~= Seq::<Seq<char>>::empty());
    loop
        invariant
            from <= start <= to <= c@.len(),
            operand_items(c@.subrange(from as int, to as int)) == crate::text::views(out@) + operand_items(
                c@.subrange(start as int, to as int),
            ),
        decreases to - start,
    {
        match find_between(c, start, to, ',') {
            None => {
                push_operand(&mut out, c, start, to);
                return out;
            },
            Some(k) => {
                let ghost before = crate::text::views(out@);
                proof {
                    let t = c@.subrange(start as int, to as int);
                    assert(t.subrange(0, k - start) =~= c@.subrange(start as int, k as int));
                    assert(t.subrange(k - start + 1, t.len() as int) =~= c@.subrange(k + 1, to as int));
                }
                push_operand(&mut out, c, start, k);
                proof {
                    let mid = operand_part(c@.subrange(start as int, k as int));
                    let tail = operand_items(c@.subrange(k + 1, to as int));
                    assert(before + (mid + tail) =~= (before + mid) + tail);
                }
                start = k + 1;
            },
        }
    }
}

/// The value of an operand
pub fn parse_operand(token: &str, registers: &Vec<AFNSBigInt>) -> (r: Result<AFNSBigInt, ApexError>)
    ensures
        match operand_value(token@, register_values(registers@)) {
            Ok(v) => r matches Ok(b) && b@ == v,
            Err(m) => r matches Err(e) && e@ == m,
        },
{
    let c = chars_of(token);
    proof {
        lemma_register_bound(token@);
    }
    if c.len() > 0 && c[0] == 'r' {
        let index = match parse_register(token) {
            Ok(i) => i,
            Err(e) => return Err(e),
        };
        if index < registers.len() {
            return Ok(registers[index].clone());
        }
        let mut m = String::from_str("Register '");
        m.append(token);
        m.append("' is out of range");
        return Err(ApexError::new(m));
    }
    if c.len() >= 2 && c[0] == '0' && c[1] == 'x' {
        let hex = string_of(&c, 2, c.len());
        return match big_parse_bytes(hex.as_str(), 16) {
            Some(v) => Ok(v),
            None => {
                let mut m = String::from_str("Unable to parse hexadecimal literal '");
                m.append(token);
                m.append("'");
                Err(ApexError::new(m))
            },
        };
    }
    match big_parse_bytes(token, 10) {
        Some(v) => Ok(v),
        None => {
            let mut m = String::from_str("Unable to parse literal '");
            m.append(token);
            m.append("'");
            Err(ApexError::new(m))
        },
    }
}

/// The new value of the destination register of a binary opcode
fn apply_binary(op: &str, a: &AFNSBigInt, b: &AFNSBigInt) -> (r: AFNSBigInt)
    requires
        is_binary_opcode(op@),
    ensures
        r@ == binary_result(op@, a@, b@),
{
    if crate::text::str_equal(op, "mov") {
        b.clone()
    } else if crate::text::str_equal(op, "add") {
        a.add(b)
    } else if crate::text::str_equal(op, "sub") {
        a.subtract(b)
    } else if crate::text::str_equal(op, "mul") {
        a.multiply(b)
    } else if crate::text::str_equal(op, "and") {
        big_and(a, b)
    } else if crate::text::str_equal(op, "or") {
        big_or(a, b)
    } else {
        big_xor(a, b)
    }
}

/// Runs one instruction of inline assembly on the registers; on an error
/// they are left as they were. An opcode whose lowercase form ends inside
/// a character of the line is outside what this accepts.
pub fn execute_instruction(line: &str, registers: &mut Vec<AFNSBigInt>) -> (r: Result<(), ApexError>)
    requires
        operands_readable(line@),
    ensures
        match instruction_result(line@, register_values(old(registers)@)) {
            Ok(regs) => r is Ok && register_values(final(registers)@) == regs,
            Err(m) => (r matches Err(e) && e@ == m) && final(registers)@ == old(registers)@,
        },
{
    let c = chars_of(line);
    let n = c.len();
    proof {
        assert(c@.subrange(0, n as int) =~= c@);
    }
    let a = skip_whitespace(&c, 0, n);
    if a == n {
        proof {
            assert(trim_start_ws(line@).len() == 0);
        }
        return Err(ApexError::new(String::from_str("Inline assembly instruction is empty")));
    }
    let b = word_end(&c, a);
    let word = string_of(&c, a, b);
    proof {
        let t = trim_start_ws(line@);
        assert(t =~= c@.subrange(a as int, n as int));
        assert(word@ =~= t.take(word_len(t) as int));
        assert(word_len(t) > 0) by {
            lemma_trim_start_first(line@);
        }
    }
    let lower = to_lowercase(word.as_str());
    let lc = chars_of(lower.as_str());
    let k = utf8_bytes(&lc);
    proof {
        lemma_char_index_bound(c@, k as int);
    }
    let p = match char_at_byte(&c, k) {
        Some(p) => p,
        None => {
            return Err(ApexError::new(String::from_str("Inline assembly instruction is empty")));
        },
    };
    let s1 = skip_whitespace(&c, p, n);
    let s2 = drop_whitespace(&c, s1, n);
    let ops = operand_list(&c, s1, s2);
    proof {
        assert(c@.subrange(s1 as int, s2 as int) == trim_ws(line@.subrange(p as int, line@.len() as int)));
        assert(crate::text::views(ops@) == operands_of(line@));
        assert(ops@.len() == operands_of(line@).len());
    }
    let op = lower.as_str();
    assert(op@ == opcode_of(line@));
    assert(first_word(line@).len() > 0);
    if crate::text::str_equal(op, "nop") {
        if ops.len() == 0 {
            return Ok(());
        }
        return Err(ApexError::new(String::from_str("nop does not accept operands")));
    }
    let binary = crate::text::str_equal(op, "mov") || crate::text::str_equal(op, "add")
        || crate::text::str_equal(op, "sub") || crate::text::str_equal(op, "mul")
        || crate::text::str_equal(op, "and") || crate::text::str_equal(op, "or")
        || crate::text::str_equal(op, "xor");
    if !binary {
        let mut m = String::from_str("Unsupported opcode '");
        m.append(op);
        m.append("'");
        return Err(ApexError::new(m));
    }
    if ops.len() != 2 {
        let mut m = String::from_str(op);
        m.append(" expects exactly two operands");
        return Err(ApexError::new(m));
    }
    proof {
        assert(ops@[0]@ == operands_of(line@)[0]);
        assert(ops@[1]@ == operands_of(line@)[1]);
    }
    let dst = match parse_register(ops[0].as_str()) {
        Ok(d) => d,
        Err(e) => return Err(e),
    };
    proof {
        lemma_register_bound(operands_of(line@)[0]);
    }
    assert(register_of(operands_of(line@)[0]) == Ok::<int, Seq<char>>(dst as int));
    assert(register_values(registers@).len() == registers@.len());
    if dst >= registers.len() {
        return Err(ApexError::new(String::from_str("Register index out of range")));
    }
    let value = match parse_operand(ops[1].as_str(), registers) {
        Ok(v) => v,
        Err(e) => return Err(e),
    };
    let updated = apply_binary(op, &registers[dst], &value);
    let ghost before = register_values(registers@);
    let ghost nv = updated@;
    registers.set(dst, updated);
    proof {
        assert(register_values(registers@) =~= before.update(dst as int, nv));
    }
    Ok(())
}

/// The registers after the instructions of a block, or the message of the
/// first error; None when an instruction's opcode would be read past in
/// the middle of a character.
pub open spec fn block_result(lines: Seq<Seq<char>>, regs: Seq<int>) -> Option<Result<Seq<int>, Seq<char>>>
    decreases lines.len(),
{
    if lines.len() == 0 {
        Some(Ok(regs))
    } else {
        let line = trim_ws(lines[0]);
        if line.len() == 0 {
            block_result(lines.drop_first(), regs)
        } else if !operands_readable(line) {
            None
        } else {
            match instruction_result(line, regs) {
                Err(m) => Some(Err(m)),
                Ok(next) => block_result(lines.drop_first(), next),
            }
        }
    }
}

/// The pieces of a text split at semicolons.
pub open spec fn split_semicolons(s: Seq<char>) -> Seq<Seq<char>>
    decreases s.len(),
{
    let i = first_index_of(s, ';');
    if i < 0 || i >= s.len() {
        seq![s]
    } else {
        seq![s.subrange(0, i)] + split_semicolons(s.subrange(i + 1, s.len() as int))
    }
}

/// Four registers holding zero.
pub open spec fn zero_registers() -> Seq<int> {
    seq![0int, 0, 0, 0]
}

/// Whether an instruction's operands can be read
fn readable(line: &str) -> (b: bool)
    ensures
        b == operands_readable(line@),
{
    let c = chars_of(line);
    let n = c.len();
    proof {
        assert(c@.subrange(0, n as int) =~= c@);
    }
    let a = skip_whitespace(&c, 0, n);
    if a == n {
        return true;
    }
    let b = word_end(&c, a);
    let word = string_of(&c, a, b);
    proof {
        let t = trim_start_ws(line@);
        assert(t =~= c@.subrange(a as int, n as int));
        assert(word@ =~= t.take(word_len(t) as int));
        assert(word_len(t) > 0) by {
            lemma_trim_start_first(line@);
        }
    }
    let lower = to_lowercase(word.as_str());
    let lc = chars_of(lower.as_str());
    let k = utf8_bytes(&lc);
    char_at_byte(&c, k).is_some()
}

/// Runs a block of inline assembly, its instructions separated by
/// semicolons, on four registers that start at zero: their values, or the
/// first error. None when an opcode's lowercase form would end inside a
/// character of its line.
pub fn inline_block(source: &str) -> (r: Option<Result<Vec<AFNSBigInt>, ApexError>>)
    ensures
        match block_result(split_semicolons(source@), zero_registers()) {
            None => r is None,
            Some(Ok(regs)) => r matches Some(Ok(v)) && register_values(v@) == regs,
            Some(Err(m)) => r matches Some(Err(e)) && e@ == m,
        },
{
    let mut registers: Vec<AFNSBigInt> = Vec::new();
    let mut z: usize = 0;
    while z < 4
        invariant
            z <= 4,
            registers@.len() == z,
            forall|i: int| 0 <= i < z ==> #[trigger] registers@[i]@ == 0,
        decreases 4 - z,
    {
        registers.push(big_from_i64(0));
        z = z + 1;
    }
    assert(register_values(registers@) =~= zero_registers());
    let c = chars_of(source);
    let n = c.len();
    let mut start: usize = 0;
    proof {
        assert(c@.subrange(0, n as int) =~= source@);
    }
    loop
        invariant
            start <= n == c@.len(),
            c@ == source@,
            block_result(split_semicolons(source@), zero_registers()) == block_result(
                split_semicolons(c@.subrange(start as int, n as int)),
                register_values(registers@),
            ),
        decreases n - start,
    {
        let ghost t = c@.subrange(start as int, n as int);
        let (end, last) = match find_between(&c, start, n, ';') {
            Some(i) => (i, false),
            None => (n, true),
        };
        proof {
            if !last {
                assert(t.subrange(0, end - start) =~= c@.subrange(start as int, end as int));
                assert(t.subrange(end - start + 1, t.len() as int) =~= c@.subrange(end + 1, n as int));
                assert(split_semicolons(t) == seq![c@.subrange(start as int, end as int)] + split_semicolons(
                    c@.subrange(end + 1, n as int),
                ));
            } else {
                assert(split_semicolons(t) == seq![t]);
            }
        }
        let ghost pieces = split_semicolons(t);
        let ghost piece = pieces[0];
        proof {
            assert(pieces.drop_first() == if last {
                Seq::<Seq<char>>::empty()
            } else {
                split_semicolons(c@.subrange(end + 1, n as int))
            }) by {
                if last {
                    assert(pieces.drop_first() =~= Seq::<Seq<char>>::empty());
                } else {
                    assert(pieces.drop_first() =~= split_semicolons(c@.subrange(end + 1, n as int)));
                }
            }
        }
        let a = skip_whitespace(&c, start, end);
        let b = drop_whitespace(&c, a, end);
        proof {
            assert(c@.subrange(a as int, b as int) == trim_ws(piece));
        }
        if a < b {
            let line = string_of(&c, a, b);
            if !readable(line.as_str()) {
                return None;
            }
            match execute_instruction(line.as_str(), &mut registers) {
                Ok(()) => {},
                Err(e) => return Some(Err(e)),
            }
        }
        if last {
            proof {
                assert(block_result(Seq::<Seq<char>>::empty(), register_values(registers@)) == Some(
                    Ok::<Seq<int>, Seq<char>>(register_values(registers@)),
                ));
            }
            return Some(Ok(registers));
        }
        start = end + 1;
    }
}

} // verus!
