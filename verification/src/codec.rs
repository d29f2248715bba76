//! The stored form of the task list: a pretty-printed JSON array of objects
//! with a `"task"` string and a `"completed"` boolean, two-space indented.
//! The serializer and the parser are both verified, and serializing then
//! parsing is proved to give the list back unchanged.

use vstd::prelude::*;
use crate::chars::{char_from_u32, is_scalar_value, push_char};
use crate::task::{Task, TaskView, views_of};

verus! {

// ---------------------------------------------------------------------------
// The fixed pieces of the stored format.
// ---------------------------------------------------------------------------

/// The whole file when the list is empty.
pub open spec fn lit_empty() -> Seq<char> {
    "[]"@
}

/// The opening of a non-empty array.
pub open spec fn lit_open() -> Seq<char> {
    "[\n"@
}

/// The closing of a non-empty array.
pub open spec fn lit_close() -> Seq<char> {
    "\n]"@
}

/// The separator between two array elements.
pub open spec fn lit_sep() -> Seq<char> {
    ",\n"@
}

/// The opening of one task object, up to and including the quote that opens
/// the description string.
pub open spec fn lit_obj_open() -> Seq<char> {
    "  {\n    \"task\": \""@
}

/// The quote that closes the description string.
pub open spec fn lit_quote() -> Seq<char> {
    "\""@
}

/// Between the description string and the completion flag.
pub open spec fn lit_mid() -> Seq<char> {
    ",\n    \"completed\": "@
}

/// The closing of one task object.
pub open spec fn lit_obj_close() -> Seq<char> {
    "\n  }"@
}

/// The rendering of the completion flag.
pub open spec fn bool_chars(b: bool) -> Seq<char> {
    if b {
        "true"@
    } else {
        "false"@
    }
}

// ---------------------------------------------------------------------------
// String escaping.
// ---------------------------------------------------------------------------

/// The hexadecimal digit character of a value below sixteen, lower case.
pub open spec fn hex_digit(d: int) -> char {
    if d == 0 {
        '0'
    } else if d == 1 {
        '1'
    } else if d == 2 {
        '2'
    } else if d == 3 {
        '3'
    } else if d == 4 {
        '4'
    } else if d == 5 {
        '5'
    } else if d == 6 {
        '6'
    } else if d == 7 {
        '7'
    } else if d == 8 {
        '8'
    } else if d == 9 {
        '9'
    } else if d == 10 {
        'a'
    } else if d == 11 {
        'b'
    } else if d == 12 {
        'c'
    } else if d == 13 {
        'd'
    } else if d == 14 {
        'e'
    } else {
        'f'
    }
}

/// How one character of a description is written inside the quotes: quote and
/// backslash get a backslash, the common control characters get their short
/// escapes, the remaining control characters get `\u00..`, and everything
/// else stands as itself.
pub open spec fn esc_char(c: char) -> Seq<char> {
    if c == '"' {
        seq!['\\', '"']
    } else if c == '\\' {
        seq!['\\', '\\']
    } else if (c as u32) == 0x08 {
        seq!['\\', 'b']
    } else if (c as u32) == 0x09 {
        seq!['\\', 't']
    } else if (c as u32) == 0x0A {
        seq!['\\', 'n']
    } else if (c as u32) == 0x0C {
        seq!['\\', 'f']
    } else if (c as u32) == 0x0D {
        seq!['\\', 'r']
    } else if (c as u32) < 0x20 {
        seq!['\\', 'u', '0', '0', hex_digit((c as u32) as int / 16), hex_digit((c as u32) as int % 16)]
    } else {
        seq![c]
    }
}

/// A whole description, escaped character by character.
pub open spec fn esc_string(s: Seq<char>) -> Seq<char>
    decreases s.len(),
{
    if s.len() == 0 {
        Seq::empty()
    } else {
        esc_char(s[0]) + esc_string(s.skip(1))
    }
}

// ---------------------------------------------------------------------------
// The serialized text.
// ---------------------------------------------------------------------------

/// One task as an indented object.
pub open spec fn ser_task(t: TaskView) -> Seq<char> {
    lit_obj_open() + esc_string(t.task) + lit_quote() + lit_mid() + bool_chars(t.completed)
        + lit_obj_close()
}

/// A non-empty run of tasks, separated by `,\n`.
pub open spec fn ser_items(ts: Seq<TaskView>) -> Seq<char>
    decreases ts.len(),
{
    if ts.len() == 0 {
        Seq::empty()
    } else if ts.len() == 1 {
        ser_task(ts[0])
    } else {
        ser_task(ts[0]) + lit_sep() + ser_items(ts.skip(1))
    }
}

/// The whole stored file for a list of tasks.
pub open spec fn ser_tasks(ts: Seq<TaskView>) -> Seq<char> {
    if ts.len() == 0 {
        lit_empty()
    } else {
        lit_open() + ser_items(ts) + lit_close()
    }
}

// ---------------------------------------------------------------------------
// The parser, as a deterministic scanner over the characters.
// ---------------------------------------------------------------------------

/// Whether the given literal stands in `s` at position `i`.
pub open spec fn lit_at(s: Seq<char>, i: int, lit: Seq<char>) -> bool {
    0 <= i && i + lit.len() <= s.len() && s.subrange(i, i + lit.len()) == lit
}

/// The value of a hexadecimal digit character, either case.
pub open spec fn hex_val(c: char) -> Option<u32> {
    let u = c as u32;
    if 0x30 <= u && u <= 0x39 {
        Some((u - 0x30) as u32)
    } else if 0x61 <= u && u <= 0x66 {
        Some((u - 0x61 + 10) as u32)
    } else if 0x41 <= u && u <= 0x46 {
        Some((u - 0x41 + 10) as u32)
    } else {
        None
    }
}

/// The character a short escape stands for. Quote, backslash and slash stand
/// for themselves.
pub open spec fn unesc_short(e: char) -> char {
    if e == 'b' {
        8u32 as char
    } else if e == 't' {
        9u32 as char
    } else if e == 'n' {
        10u32 as char
    } else if e == 'f' {
        12u32 as char
    } else if e == 'r' {
        13u32 as char
    } else {
        e
    }
}

/// Scan a string body starting at `i` (just inside the opening quote):
/// unescape up to and over the closing quote, returning the content and the
/// position after the quote. Unescaped control characters, bad escapes, code
/// points that are no Unicode scalar value, and a missing closing quote all
/// refuse the text.
pub open spec fn sp_string(s: Seq<char>, i: int) -> Option<(Seq<char>, int)>
    decreases s.len() - i,
{
    if i < 0 || i >= s.len() {
        None
    } else if s[i] == '"' {
        Some((Seq::empty(), i + 1))
    } else if s[i] == '\\' {
        if i + 1 >= s.len() {
            None
        } else {
            let e = s[i + 1];
            if e == '"' || e == '\\' || e == '/' || e == 'b' || e == 't' || e == 'n' || e == 'f'
                || e == 'r' {
                match sp_string(s, i + 2) {
                    Some((tail, j)) => Some((seq![unesc_short(e)] + tail, j)),
                    None => None,
                }
            } else if e == 'u' {
                if i + 6 > s.len() {
                    None
                } else {
                    match (hex_val(s[i + 2]), hex_val(s[i + 3]), hex_val(s[i + 4]), hex_val(
                        s[i + 5],
                    )) {
                        (Some(h0), Some(h1), Some(h2), Some(h3)) => {
                            let code = (h0 * 0x1000 + h1 * 0x100 + h2 * 0x10 + h3) as u32;
                            if is_scalar_value(code) {
                                match sp_string(s, i + 6) {
                                    Some((tail, j)) => Some((seq![code as char] + tail, j)),
                                    None => None,
                                }
                            } else {
                                None
                            }
                        },
                        _ => None,
                    }
                }
            } else {
                None
            }
        }
    } else if (s[i] as u32) < 0x20 {
        None
    } else {
        match sp_string(s, i + 1) {
            Some((tail, j)) => Some((seq![s[i]] + tail, j)),
            None => None,
        }
    }
}

/// Scan a completion flag.
pub open spec fn sp_bool(s: Seq<char>, i: int) -> Option<(bool, int)> {
    if lit_at(s, i, "true"@) {
        Some((true, i + "true"@.len()))
    } else if lit_at(s, i, "false"@) {
        Some((false, i + "false"@.len()))
    } else {
        None
    }
}

/// Scan one task object.
pub open spec fn sp_task(s: Seq<char>, i: int) -> Option<(TaskView, int)> {
    if !lit_at(s, i, lit_obj_open()) {
        None
    } else {
        match sp_string(s, i + lit_obj_open().len()) {
            Some((txt, j)) => {
                if lit_at(s, j, lit_mid()) {
                    match sp_bool(s, j + lit_mid().len()) {
                        Some((b, k)) => {
                            if lit_at(s, k, lit_obj_close()) {
                                Some(
                                    (
                                        TaskView { task: txt, completed: b },
                                        k + lit_obj_close().len(),
                                    ),
                                )
                            } else {
                                None
                            }
                        },
                        None => None,
                    }
                } else {
                    None
                }
            },
            None => None,
        }
    }
}

/// Scan a non-empty run of task objects and the closing `\n]`, which must end
/// the text. The fuel bounds the recursion; one object takes at least one
/// character, so any fuel of at least the text's length is enough.
pub open spec fn sp_items(s: Seq<char>, i: int, fuel: nat) -> Option<Seq<TaskView>>
    decreases fuel,
{
    if fuel == 0 {
        None
    } else {
        match sp_task(s, i) {
            Some((t, j)) => {
                if lit_at(s, j, lit_sep()) {
                    match sp_items(s, j + lit_sep().len(), (fuel - 1) as nat) {
                        Some(rest) => Some(seq![t] + rest),
                        None => None,
                    }
                } else if lit_at(s, j, lit_close()) && j + lit_close().len() == s.len() {
                    Some(seq![t])
                } else {
                    None
                }
            },
            None => None,
        }
    }
}

/// Scan a whole stored file: either exactly `[]`, or `[\n`, the task objects,
/// and `\n]` at the very end.
pub open spec fn sp_tasks(s: Seq<char>) -> Option<Seq<TaskView>> {
    if s == lit_empty() {
        Some(Seq::empty())
    } else if lit_at(s, 0, lit_open()) {
        sp_items(s, lit_open().len() as int, s.len())
    } else {
        None
    }
}

// ---------------------------------------------------------------------------
// The serializer.
// ---------------------------------------------------------------------------

/// The hexadecimal digit character of a value below sixteen.
fn hex_digit_exec(d: u32) -> (c: char)
    requires
        d < 16,
    ensures
        c == hex_digit(d as int),
{
    if d == 0 {
        '0'
    } else if d == 1 {
        '1'
    } else if d == 2 {
        '2'
    } else if d == 3 {
        '3'
    } else if d == 4 {
        '4'
    } else if d == 5 {
        '5'
    } else if d == 6 {
        '6'
    } else if d == 7 {
        '7'
    } else if d == 8 {
        '8'
    } else if d == 9 {
        '9'
    } else if d == 10 {
        'a'
    } else if d == 11 {
        'b'
    } else if d == 12 {
        'c'
    } else if d == 13 {
        'd'
    } else if d == 14 {
        'e'
    } else {
        'f'
    }
}

/// Extending the string by one character extends its escaped form by that
/// character's escape.
proof fn lemma_esc_string_take_step(s: Seq<char>, k: int)
    requires
        0 <= k < s.len(),
    ensures
        esc_string(s.take(k + 1)) == esc_string(s.take(k)) + esc_char(s[k]),
    decreases k,
{
    if k == 0 {
        assert(s.take(1) =~= seq![s[0]]);
        assert(seq![s[0]].skip(1) =~= Seq::<char>::empty());
        assert(esc_string(seq![s[0]]) == esc_char(s[0]) + esc_string(Seq::<char>::empty()));
        assert(esc_char(s[0]) + Seq::<char>::empty() =~= esc_char(s[0]));
        assert(s.take(0) =~= Seq::<char>::empty());
        assert(esc_string(s.take(0)) + esc_char(s[0]) =~= esc_char(s[0]));
    } else {
        lemma_esc_string_take_step(s.skip(1), k - 1);
        assert(s.take(k + 1).skip(1) =~= s.skip(1).take(k));
        assert(s.take(k).skip(1) =~= s.skip(1).take(k - 1));
        assert(s.take(k + 1)[0] == s[0]);
        assert(s.take(k)[0] == s[0]);
        assert(s.skip(1)[k - 1] == s[k]);
        assert(esc_string(s.take(k + 1)) == esc_char(s[0]) + esc_string(s.skip(1).take(k)));
        assert(esc_string(s.take(k)) == esc_char(s[0]) + esc_string(s.skip(1).take(k - 1)));
        assert(esc_string(s.take(k + 1)) =~= esc_string(s.take(k)) + esc_char(s[k]));
    }
}

/// Append the escaped form of a description to `out`.
fn push_escaped(out: &mut String, s: &str)
    ensures
        final(out)@ == old(out)@ + esc_string(s@),
{
    let n = s.unicode_len();
    let mut i: usize = 0;
    while i < n
        invariant
            i <= n,
            n == s@.len(),
            out@ == old(out)@ + esc_string(s@.take(i as int)),
        decreases n - i,
    {
        let c = s.get_char(i);
        let u = c as u32;
        if c == '"' {
            push_char(out, '\\');
            push_char(out, '"');
        } else if c == '\\' {
            push_char(out, '\\');
            push_char(out, '\\');
        } else if u == 0x08 {
            push_char(out, '\\');
            push_char(out, 'b');
        } else if u == 0x09 {
            push_char(out, '\\');
            push_char(out, 't');
        } else if u == 0x0A {
            push_char(out, '\\');
            push_char(out, 'n');
        } else if u == 0x0C {
            push_char(out, '\\');
            push_char(out, 'f');
        } else if u == 0x0D {
            push_char(out, '\\');
            push_char(out, 'r');
        } else if u < 0x20 {
            push_char(out, '\\');
            push_char(out, 'u');
            push_char(out, '0');
            push_char(out, '0');
            push_char(out, hex_digit_exec(u / 16));
            push_char(out, hex_digit_exec(u % 16));
        } else {
            push_char(out, c);
        }
        proof {
            lemma_esc_string_take_step(s@, i as int);
            assert(out@ =~= old(out)@ + esc_string(s@.take(i + 1)));
        }
        i += 1;
    }
    proof {
        assert(s@.take(n as int) =~= s@);
    }
}

/// Append one task object to `out`.
fn push_task(out: &mut String, t: &Task)
    ensures
        final(out)@ == old(out)@ + ser_task(t@),
{
    out.append("  {\n    \"task\": \"");
    push_escaped(out, t.task.as_str());
    out.append("\"");
    out.append(",\n    \"completed\": ");
    if t.completed {
        out.append("true");
    } else {
        out.append("false");
    }
    out.append("\n  }");
    proof {
        assert(out@ =~= old(out)@ + ser_task(t@));
    }
}

/// Appending a task to a non-empty run appends a separator and its object.
proof fn lemma_ser_items_push(ts: Seq<TaskView>, x: TaskView)
    requires
        ts.len() >= 1,
    ensures
        ser_items(ts.push(x)) == ser_items(ts) + lit_sep() + ser_task(x),
    decreases ts.len(),
{
    if ts.len() == 1 {
        assert(ts.push(x)[0] == ts[0]);
        assert(ts.push(x).skip(1) =~= seq![x]);
        assert(ser_items(seq![x]) == ser_task(x));
        assert(ser_items(ts.push(x)) =~= ser_items(ts) + lit_sep() + ser_task(x));
    } else {
        lemma_ser_items_push(ts.skip(1), x);
        assert(ts.push(x).skip(1) =~= ts.skip(1).push(x));
        assert(ts.push(x)[0] == ts[0]);
        assert(ser_items(ts.push(x)) =~= ser_items(ts) + lit_sep() + ser_task(x));
    }
}

/// The whole stored text for a list of tasks, exactly as the spec-level
/// serializer gives it.
pub fn save_todos(todos: &Vec<Task>) -> (r: String)
    ensures
        r@ == ser_tasks(views_of(todos@)),
{
    let ghost tvs = views_of(todos@);
    if todos.len() == 0 {
        proof {
            assert(tvs.len() == 0);
        }
        return String::from_str("[]");
    }
    let mut out = String::from_str("[\n");
    push_task(&mut out, &todos[0]);
    proof {
        assert(tvs.take(1) =~= seq![tvs[0]]);
        assert(ser_items(tvs.take(1)) == ser_task(tvs[0]));
        assert(out@ =~= lit_open() + ser_items(tvs.take(1)));
    }
    let mut i: usize = 1;
    while i < todos.len()
        invariant
            1 <= i <= todos@.len(),
            tvs == views_of(todos@),
            tvs.len() == todos@.len(),
            out@ == lit_open() + ser_items(tvs.take(i as int)),
        decreases todos@.len() - i,
    {
        out.append(",\n");
        push_task(&mut out, &todos[i]);
        proof {
            assert(tvs.take(i + 1) =~= tvs.take(i as int).push(tvs[i as int]));
            lemma_ser_items_push(tvs.take(i as int), tvs[i as int]);
            assert(out@ =~= lit_open() + ser_items(tvs.take(i + 1)));
        }
        i += 1;
    }
    out.append("\n]");
    proof {
        assert(tvs.take(todos@.len() as int) =~= tvs);
        assert(out@ =~= ser_tasks(tvs));
    }
    out
}

// ---------------------------------------------------------------------------
// The parser.
// ---------------------------------------------------------------------------

/// Whether the given literal stands in `s` at position `i`.
fn check_lit(s: &Vec<char>, i: usize, lit: &str) -> (r: bool)
    requires
        i <= s@.len(),
    ensures
        r == lit_at(s@, i as int, lit@),
{
    let n = lit.unicode_len();
    let slen = s.len();
    if n > slen - i {
        return false;
    }
    let mut k: usize = 0;
    while k < n
        invariant
            k <= n,
            n == lit@.len(),
            slen == s@.len(),
            i + n <= slen,
            forall|m: int| 0 <= m < k ==> s@[i + m] == lit@[m],
        decreases n - k,
    {
        if s[i + k] != lit.get_char(k) {
            proof {
                assert(s@.subrange(i as int, i + n) != lit@) by {
                    if s@.subrange(i as int, i + n) == lit@ {
                        assert(s@.subrange(i as int, i + n)[k as int] == lit@[k as int]);
                    }
                }
            }
            return false;
        }
        k += 1;
    }
    proof {
        assert(s@.subrange(i as int, i + n) =~= lit@);
    }
    true
}

/// The value of a hexadecimal digit character.
fn hex_val_exec(c: char) -> (r: Option<u32>)
    ensures
        r == hex_val(c),
{
    let u = c as u32;
    if 0x30 <= u && u <= 0x39 {
        Some(u - 0x30)
    } else if 0x61 <= u && u <= 0x66 {
        Some(u - 0x61 + 10)
    } else if 0x41 <= u && u <= 0x46 {
        Some(u - 0x41 + 10)
    } else {
        None
    }
}

/// Scan a string body: append the unescaped content to `out` and return the
/// position just past the closing quote.
fn parse_string_at(s: &Vec<char>, i: usize, out: &mut String) -> (r: Option<usize>)
    requires
        i <= s@.len(),
    ensures
        match sp_string(s@, i as int) {
            Some((content, j)) => {
                &&& r matches Some(jj) && jj == j
                &&& i < j <= s@.len()
                &&& final(out)@ == old(out)@ + content
            },
            None => r is None,
        },
    decreases s@.len() - i,
{
    if i >= s.len() {
        return None;
    }
    let c = s[i];
    if c == '"' {
        proof {
            assert(old(out)@ + Seq::<char>::empty() =~= old(out)@);
        }
        return Some(i + 1);
    }
    if c == '\\' {
        if i + 1 >= s.len() {
            return None;
        }
        let e = s[i + 1];
        if e == '"' || e == '\\' || e == '/' || e == 'b' || e == 't' || e == 'n' || e == 'f'
            || e == 'r' {
            let u: char = if e == 'b' {
                '\u{8}'
            } else if e == 't' {
                '\u{9}'
            } else if e == 'n' {
                '\u{A}'
            } else if e == 'f' {
                '\u{C}'
            } else if e == 'r' {
                '\u{D}'
            } else {
                e
            };
            proof {
                assert(u == unesc_short(e));
            }
            push_char(out, u);
            let ghost mid = out@;
            let r = parse_string_at(s, i + 2, out);
            proof {
                if let Some((tail, j)) = sp_string(s@, i + 2) {
                    assert(out@ =~= old(out)@ + (seq![unesc_short(e)] + tail));
                }
            }
            return r;
        } else if e == 'u' {
            if s.len() - i < 6 {
                return None;
            }
            let h0 = match hex_val_exec(s[i + 2]) {
                Some(h) => h,
                None => {
                    return None;
                },
            };
            let h1 = match hex_val_exec(s[i + 3]) {
                Some(h) => h,
                None => {
                    return None;
                },
            };
            let h2 = match hex_val_exec(s[i + 4]) {
                Some(h) => h,
                None => {
                    return None;
                },
            };
            let h3 = match hex_val_exec(s[i + 5]) {
                Some(h) => h,
                None => {
                    return None;
                },
            };
            let code: u32 = h0 * 0x1000 + h1 * 0x100 + h2 * 0x10 + h3;
            let ch = match char_from_u32(code) {
                Some(ch) => ch,
                None => {
                    return None;
                },
            };
            push_char(out, ch);
            let r = parse_string_at(s, i + 6, out);
            proof {
                if let Some((tail, j)) = sp_string(s@, i + 6) {
                    assert(out@ =~= old(out)@ + (seq![code as char] + tail));
                }
            }
            return r;
        } else {
            return None;
        }
    }
    if (c as u32) < 0x20 {
        return None;
    }
    push_char(out, c);
    let r = parse_string_at(s, i + 1, out);
    proof {
        if let Some((tail, j)) = sp_string(s@, i + 1) {
            assert(out@ =~= old(out)@ + (seq![c] + tail));
        }
    }
    r
}

/// Scan a completion flag.
fn parse_bool_at(s: &Vec<char>, i: usize) -> (r: Option<(bool, usize)>)
    requires
        i <= s@.len(),
    ensures
        match sp_bool(s@, i as int) {
            Some((b, j)) => r matches Some(p) && p.0 == b && p.1 == j && j <= s@.len(),
            None => r is None,
        },
{
    let slen = s.len();
    if check_lit(s, i, "true") {
        proof {
            assert(i + "true"@.len() <= slen);
        }
        Some((true, i + "true".unicode_len()))
    } else if check_lit(s, i, "false") {
        proof {
            assert(i + "false"@.len() <= slen);
        }
        Some((false, i + "false".unicode_len()))
    } else {
        None
    }
}

/// Scan one task object.
fn parse_task_at(s: &Vec<char>, i: usize) -> (r: Option<(Task, usize)>)
    requires
        i <= s@.len(),
    ensures
        match sp_task(s@, i as int) {
            Some((tv, j)) => {
                &&& r matches Some(p) && p.0@ == tv && p.1 == j
                &&& j <= s@.len()
            },
            None => r is None,
        },
{
    let slen = s.len();
    if !check_lit(s, i, "  {\n    \"task\": \"") {
        return None;
    }
    proof {
        assert(i + "  {\n    \"task\": \""@.len() <= slen);
    }
    let i1 = i + "  {\n    \"task\": \"".unicode_len();
    let mut txt = String::new();
    let j = match parse_string_at(s, i1, &mut txt) {
        Some(j) => j,
        None => {
            return None;
        },
    };
    if !check_lit(s, j, ",\n    \"completed\": ") {
        return None;
    }
    proof {
        assert(j + ",\n    \"completed\": "@.len() <= slen);
    }
    let j2 = j + ",\n    \"completed\": ".unicode_len();
    let (b, k) = match parse_bool_at(s, j2) {
        Some(p) => p,
        None => {
            return None;
        },
    };
    if !check_lit(s, k, "\n  }") {
        return None;
    }
    let k2 = k + "\n  }".unicode_len();
    let t = Task { task: txt, completed: b };
    proof {
        if let Some((content, jj)) = sp_string(s@, i1 as int) {
            assert(t@.task =~= content);
        }
    }
    Some((t, k2))
}

/// Scan a non-empty run of task objects and the closing `\n]`.
fn parse_items(s: &Vec<char>, i: usize, fuel: usize) -> (r: Option<Vec<Task>>)
    requires
        i <= s@.len(),
    ensures
        match sp_items(s@, i as int, fuel as nat) {
            Some(tvs) => r matches Some(ts) && views_of(ts@) == tvs,
            None => r is None,
        },
    decreases fuel,
{
    if fuel == 0 {
        return None;
    }
    let (t, j) = match parse_task_at(s, i) {
        Some(p) => p,
        None => {
            return None;
        },
    };
    let slen = s.len();
    if check_lit(s, j, ",\n") {
        proof {
            assert(j + ",\n"@.len() <= slen);
        }
        let j2 = j + ",\n".unicode_len();
        match parse_items(s, j2, fuel - 1) {
            Some(mut rest) => {
                rest.insert(0, t);
                proof {
                    if let Some(tvs) = sp_items(s@, i as int, fuel as nat) {
                        assert(views_of(rest@) =~= tvs);
                    }
                }
                Some(rest)
            },
            None => None,
        }
    } else if check_lit(s, j, "\n]") {
        proof {
            assert(j + "\n]"@.len() <= slen);
        }
        let close_len = "\n]".unicode_len();
        if j + close_len == s.len() {
            let mut v: Vec<Task> = Vec::new();
            v.push(t);
            proof {
                assert(views_of(v@) =~= seq![t@]);
            }
            Some(v)
        } else {
            None
        }
    } else {
        None
    }
}

/// Scan a whole stored file into tasks, or refuse it.
pub fn parse_tasks(s: &Vec<char>) -> (r: Option<Vec<Task>>)
    ensures
        match sp_tasks(s@) {
            Some(tvs) => r matches Some(ts) && views_of(ts@) == tvs,
            None => r is None,
        },
{
    let is_empty = s.len() == 2 && check_lit(s, 0, "[]");
    proof {
        reveal_strlit("[]");
        if is_empty {
            assert(s@.subrange(0, 2) =~= s@);
        }
        if s@ == lit_empty() {
            assert(s@.len() == 2);
            assert(s@.subrange(0, 2) =~= lit_empty());
        }
        assert(is_empty == (s@ == lit_empty()));
    }
    if is_empty {
        let v: Vec<Task> = Vec::new();
        proof {
            assert(views_of(v@) =~= Seq::<TaskView>::empty());
        }
        return Some(v);
    }
    if !check_lit(s, 0, "[\n") {
        return None;
    }
    let open_len = "[\n".unicode_len();
    parse_items(s, open_len, s.len())
}

// ---------------------------------------------------------------------------
// Serializing then parsing gives the list back: the round trip.
// ---------------------------------------------------------------------------

/// If the suffix of `s` at `i` is `a` followed by `b`, then `a` stands at
/// `i`, character by character, and `b` is the suffix after it.
proof fn lemma_suffix_split(s: Seq<char>, i: int, a: Seq<char>, b: Seq<char>)
    requires
        0 <= i <= s.len(),
        s.subrange(i, s.len() as int) == a + b,
    ensures
        i + a.len() + b.len() == s.len(),
        s.subrange(i, i + a.len()) == a,
        s.subrange(i + a.len(), s.len() as int) == b,
        forall|m: int| 0 <= m < a.len() ==> s[i + m] == a[m],
{
    assert(s.subrange(i, s.len() as int).len() == s.len() - i);
    assert forall|m: int| 0 <= m < a.len() implies s[i + m] == a[m] by {
        assert(s.subrange(i, s.len() as int)[m] == s[i + m]);
    }
    assert(s.subrange(i, i + a.len()) =~= a);
    assert forall|m: int| 0 <= m < b.len() implies s.subrange(
        i + a.len(),
        s.len() as int,
    )[m] == b[m] by {
        assert(s.subrange(i, s.len() as int)[a.len() + m] == s[i + a.len() + m]);
    }
    assert(s.subrange(i + a.len(), s.len() as int) =~= b);
}

/// The scanner undoes the escaping: on an escaped description followed by its
/// closing quote it returns exactly the description, stopping after the
/// quote.
proof fn lemma_sp_string_of_escaped(t: Seq<char>, rest: Seq<char>, s: Seq<char>, i: int)
    requires
        0 <= i <= s.len(),
        s.subrange(i, s.len() as int) == esc_string(t) + seq!['"'] + rest,
    ensures
        sp_string(s, i) == Some((t, i + esc_string(t).len() + 1)),
    decreases t.len(),
{
    if t.len() == 0 {
        assert(esc_string(t) + seq!['"'] + rest =~= seq!['"'] + rest);
        lemma_suffix_split(s, i, seq!['"'], rest);
        assert(s[i + 0] == seq!['"'][0]);
        assert(s[i] == '"');
        assert(sp_string(s, i) == Some((Seq::<char>::empty(), i + 1)));
    } else {
        let c = t[0];
        let ec = esc_char(c);
        let et = esc_string(t.skip(1));
        assert(esc_string(t) == ec + et);
        assert(esc_string(t) + seq!['"'] + rest =~= ec + (et + seq!['"'] + rest));
        lemma_suffix_split(s, i, ec, et + seq!['"'] + rest);
        lemma_sp_string_of_escaped(t.skip(1), rest, s, i + ec.len());
        assert(seq![c] + t.skip(1) =~= t);
        let u = c as u32;
        if c == '"' {
            assert(s[i] == '\\' && s[i + 1] == '"');
            assert(unesc_short('"') == c);
        } else if c == '\\' {
            assert(s[i] == '\\' && s[i + 1] == '\\');
            assert(unesc_short('\\') == c);
        } else if u == 0x08 {
            assert(s[i] == '\\' && s[i + 1] == 'b');
            vstd::utf8::char_u32_cast(c, u);
            assert(unesc_short('b') == c);
        } else if u == 0x09 {
            assert(s[i] == '\\' && s[i + 1] == 't');
            vstd::utf8::char_u32_cast(c, u);
            assert(unesc_short('t') == c);
        } else if u == 0x0A {
            assert(s[i] == '\\' && s[i + 1] == 'n');
            vstd::utf8::char_u32_cast(c, u);
            assert(unesc_short('n') == c);
        } else if u == 0x0C {
            assert(s[i] == '\\' && s[i + 1] == 'f');
            vstd::utf8::char_u32_cast(c, u);
            assert(unesc_short('f') == c);
        } else if u == 0x0D {
            assert(s[i] == '\\' && s[i + 1] == 'r');
            vstd::utf8::char_u32_cast(c, u);
            assert(unesc_short('r') == c);
        } else if u < 0x20 {
            assert(s[i] == '\\' && s[i + 1] == 'u' && s[i + 2] == '0' && s[i + 3] == '0');
            assert(s[i + 4] == hex_digit(u as int / 16) && s[i + 5] == hex_digit(u as int % 16));
            assert(hex_val('0') == Some(0u32));
            assert(u as int / 16 == 0 || u as int / 16 == 1);
            assert(hex_val(hex_digit(u as int / 16)) == Some((u as int / 16) as u32));
            assert(0 <= u as int % 16 < 16);
            assert(hex_val(hex_digit(u as int % 16)) == Some((u as int % 16) as u32));
            let code = (0 * 0x1000 + 0 * 0x100 + ((u as int / 16) as u32) * 0x10 + ((u as int
                % 16) as u32)) as u32;
            assert(code == u);
            assert(is_scalar_value(code));
            vstd::utf8::char_u32_cast(c, u);
            assert(code as char == c);
        } else {
            assert(s[i] == c);
        }
    }
}

/// The scanner undoes the serializer on one task object.
proof fn lemma_sp_task_of_ser(t: TaskView, rest: Seq<char>, s: Seq<char>, i: int)
    requires
        0 <= i <= s.len(),
        s.subrange(i, s.len() as int) == ser_task(t) + rest,
    ensures
        sp_task(s, i) == Some((t, i + ser_task(t).len())),
{
    reveal_strlit("\"");
    reveal_strlit("true");
    reveal_strlit("false");
    assert(lit_quote() =~= seq!['"']);
    let esc = esc_string(t.task);
    let b = bool_chars(t.completed);
    let tail1 = esc + seq!['"'] + (lit_mid() + b + lit_obj_close() + rest);
    assert(ser_task(t) + rest =~= lit_obj_open() + tail1);
    lemma_suffix_split(s, i, lit_obj_open(), tail1);
    assert(lit_at(s, i, lit_obj_open()));
    let i1 = i + lit_obj_open().len();
    assert(s.subrange(i1, s.len() as int) == esc + seq!['"'] + (lit_mid() + b + lit_obj_close()
        + rest));
    lemma_sp_string_of_escaped(t.task, lit_mid() + b + lit_obj_close() + rest, s, i1);
    let j = i1 + esc.len() + 1;
    assert(sp_string(s, i1) == Some((t.task, j)));
    assert(esc + seq!['"'] + (lit_mid() + b + lit_obj_close() + rest) =~= (esc + seq!['"']) + (
    lit_mid() + (b + lit_obj_close() + rest)));
    lemma_suffix_split(s, i1, esc + seq!['"'], lit_mid() + (b + lit_obj_close() + rest));
    lemma_suffix_split(s, j, lit_mid(), b + lit_obj_close() + rest);
    assert(lit_at(s, j, lit_mid()));
    let j2 = j + lit_mid().len();
    assert(b + lit_obj_close() + rest =~= b + (lit_obj_close() + rest));
    lemma_suffix_split(s, j2, b, lit_obj_close() + rest);
    if t.completed {
        assert(s.subrange(j2, j2 + "true"@.len()) == "true"@);
        assert(lit_at(s, j2, "true"@));
    } else {
        assert(s[j2 + 0] == b[0]);
        assert(s[j2] == 'f');
        assert(!lit_at(s, j2, "true"@)) by {
            if lit_at(s, j2, "true"@) {
                assert(s.subrange(j2, j2 + "true"@.len())[0] == s[j2]);
            }
        }
        assert(lit_at(s, j2, "false"@));
    }
    assert(sp_bool(s, j2) == Some((t.completed, j2 + b.len())));
    let k = j2 + b.len();
    lemma_suffix_split(s, k, lit_obj_close(), rest);
    assert(lit_at(s, k, lit_obj_close()));
    assert(TaskView { task: t.task, completed: t.completed } == t);
    assert(k + lit_obj_close().len() == i + ser_task(t).len());
}

/// A serialized run of tasks is at least as long as the run itself.
proof fn lemma_ser_items_len(ts: Seq<TaskView>)
    ensures
        ser_items(ts).len() >= ts.len(),
    decreases ts.len(),
{
    reveal_strlit("  {\n    \"task\": \"");
    if ts.len() > 1 {
        lemma_ser_items_len(ts.skip(1));
    }
}

/// The scanner undoes the serializer on a non-empty run of task objects
/// followed by the closing `\n]` at the very end of the text.
proof fn lemma_sp_items_of_ser(ts: Seq<TaskView>, s: Seq<char>, i: int, fuel: nat)
    requires
        ts.len() >= 1,
        0 <= i <= s.len(),
        s.subrange(i, s.len() as int) == ser_items(ts) + lit_close(),
        i + ser_items(ts).len() + lit_close().len() == s.len(),
        fuel >= ts.len(),
    ensures
        sp_items(s, i, fuel) == Some(ts),
    decreases ts.len(),
{
    reveal_strlit(",\n");
    reveal_strlit("\n]");
    if ts.len() == 1 {
        assert(ser_items(ts) == ser_task(ts[0]));
        lemma_sp_task_of_ser(ts[0], lit_close(), s, i);
        let j = i + ser_task(ts[0]).len();
        lemma_suffix_split(s, i, ser_task(ts[0]), lit_close());
        assert(s.subrange(j, s.len() as int)[0] == s[j]);
        assert(s[j] == '\n');
        assert(!lit_at(s, j, lit_sep())) by {
            if lit_at(s, j, lit_sep()) {
                assert(s.subrange(j, j + lit_sep().len())[0] == s[j]);
            }
        }
        assert(lit_at(s, j, lit_close()));
        assert(j + lit_close().len() == s.len());
        assert(seq![ts[0]] =~= ts);
    } else {
        let tail = lit_sep() + ser_items(ts.skip(1));
        assert(ser_items(ts) == ser_task(ts[0]) + tail);
        assert(ser_items(ts) + lit_close() =~= ser_task(ts[0]) + (lit_sep() + (ser_items(
            ts.skip(1),
        ) + lit_close())));
        lemma_sp_task_of_ser(ts[0], lit_sep() + (ser_items(ts.skip(1)) + lit_close()), s, i);
        let j = i + ser_task(ts[0]).len();
        lemma_suffix_split(s, i, ser_task(ts[0]), lit_sep() + (ser_items(ts.skip(1))
            + lit_close()));
        lemma_suffix_split(s, j, lit_sep(), ser_items(ts.skip(1)) + lit_close());
        assert(lit_at(s, j, lit_sep()));
        let j2 = j + lit_sep().len();
        lemma_sp_items_of_ser(ts.skip(1), s, j2, (fuel - 1) as nat);
        assert(seq![ts[0]] + ts.skip(1) =~= ts);
    }
}

/// Round trip: parsing the serialized form of any list of tasks gives the
/// list back, order, descriptions and flags unchanged.
pub proof fn lemma_round_trip(ts: Seq<TaskView>)
    ensures
        sp_tasks(ser_tasks(ts)) == Some(ts),
{
    let s = ser_tasks(ts);
    if ts.len() == 0 {
        assert(s == lit_empty());
    } else {
        reveal_strlit("[]");
        reveal_strlit("[\n");
        reveal_strlit("\n]");
        lemma_ser_items_len(ts);
        assert(s.len() == lit_open().len() + ser_items(ts).len() + lit_close().len());
        assert(s.len() >= 4 + ts.len());
        assert(s != lit_empty()) by {
            if s == lit_empty() {
                assert(s.len() == 2);
            }
        }
        assert(s.subrange(0, s.len() as int) =~= lit_open() + (ser_items(ts) + lit_close()));
        lemma_suffix_split(s, 0, lit_open(), ser_items(ts) + lit_close());
        assert(lit_at(s, 0, lit_open()));
        lemma_sp_items_of_ser(ts, s, lit_open().len() as int, s.len());
        assert(sp_tasks(s) == Some(ts));
    }
}

} // verus!
