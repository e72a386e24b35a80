//! The persisted document format: a pretty-printed JSON object whose keys
//! are user identifiers and whose values are arrays of `{id, name}`
//! objects. `save` serializes deterministically; `load` parses the text
//! back (tolerating arbitrary whitespace between tokens and either key
//! order inside an entry) and rejects anything else as corrupt.
use crate::store::{subs_view, wf_doc, wf_subs, Document, SubV, Subscription, UserSubs, UserV};
use vstd::prelude::*;
use vstd::string::StrSliceExecFns;

verus! {

// ---------------------------------------------------------------------
// Serialization, at the model level.
// ---------------------------------------------------------------------
/// The lowercase hex digit of a value below sixteen.
pub open spec fn hex_lo(n: u32) -> char {
    if n == 0 {
        '0'
    } else if n == 1 {
        '1'
    } else if n == 2 {
        '2'
    } else if n == 3 {
        '3'
    } else if n == 4 {
        '4'
    } else if n == 5 {
        '5'
    } else if n == 6 {
        '6'
    } else if n == 7 {
        '7'
    } else if n == 8 {
        '8'
    } else if n == 9 {
        '9'
    } else if n == 10 {
        'a'
    } else if n == 11 {
        'b'
    } else if n == 12 {
        'c'
    } else if n == 13 {
        'd'
    } else if n == 14 {
        'e'
    } else {
        'f'
    }
}

/// How one character appears inside a JSON string: quotes and
/// backslashes are escaped, control characters take their short escape
/// or `\u00XX`, everything else stands for itself.
pub open spec fn esc_char(c: char) -> Seq<char> {
    if c == '"' {
        seq!['\\', '"']
    } else if c == '\\' {
        seq!['\\', '\\']
    } else if c == '\u{8}' {
        seq!['\\', 'b']
    } else if c == '\t' {
        seq!['\\', 't']
    } else if c == '\n' {
        seq!['\\', 'n']
    } else if c == '\u{c}' {
        seq!['\\', 'f']
    } else if c == '\r' {
        seq!['\\', 'r']
    } else if (c as u32) < 32 {
        seq!['\\', 'u', '0', '0', hex_lo((c as u32) / 16), hex_lo((c as u32) % 16)]
    } else {
        seq![c]
    }
}

/// A whole string, escaped.
pub open spec fn esc(s: Seq<char>) -> Seq<char>
    decreases s.len(),
{
    if s.len() == 0 {
        Seq::empty()
    } else {
        esc_char(s[0]) + esc(s.drop_first())
    }
}

/// One subscription entry, pretty-printed at its fixed depth.
pub open spec fn ser_sub(e: SubV) -> Seq<char> {
    "    {\n      \"id\": \""@ + esc(e.id) + "\",\n      \"name\": \""@ + esc(e.name)
        + "\"\n    }"@
}

/// A user's entries, joined by `",\n"`.
pub open spec fn ser_subs(subs: Seq<SubV>) -> Seq<char>
    decreases subs.len(),
{
    if subs.len() == 0 {
        Seq::empty()
    } else if subs.len() == 1 {
        ser_sub(subs[0])
    } else {
        ser_sub(subs[0]) + ",\n"@ + ser_subs(subs.drop_first())
    }
}

/// One user's member: the quoted key and its array.
pub open spec fn ser_user(u: UserV) -> Seq<char> {
    "  \""@ + esc(u.user) + "\": [\n"@ + ser_subs(u.subs) + "\n  ]"@
}

/// All members, joined by `",\n"`.
pub open spec fn ser_users(d: Seq<UserV>) -> Seq<char>
    decreases d.len(),
{
    if d.len() == 0 {
        Seq::empty()
    } else if d.len() == 1 {
        ser_user(d[0])
    } else {
        ser_user(d[0]) + ",\n"@ + ser_users(d.drop_first())
    }
}

/// The whole document text.
pub open spec fn ser_doc(d: Seq<UserV>) -> Seq<char> {
    if d.len() == 0 {
        "{}"@
    } else {
        "{\n"@ + ser_users(d) + "\n}"@
    }
}

// ---------------------------------------------------------------------
// Parsing, at the model level. Each function consumes a prefix of the
// text and returns the parsed value with the remaining suffix.
// ---------------------------------------------------------------------
pub open spec fn is_ws(c: char) -> bool {
    c == ' ' || c == '\n' || c == '\t' || c == '\r'
}

pub open spec fn skip_ws(s: Seq<char>) -> Seq<char>
    decreases s.len(),
{
    if s.len() > 0 && is_ws(s[0]) {
        skip_ws(s.drop_first())
    } else {
        s
    }
}

/// The character a one-letter escape stands for, if the escape is known.
pub open spec fn unesc_char(c: char) -> Option<char> {
    if c == '"' {
        Some('"')
    } else if c == '\\' {
        Some('\\')
    } else if c == '/' {
        Some('/')
    } else if c == 'n' {
        Some('\n')
    } else if c == 't' {
        Some('\t')
    } else if c == 'r' {
        Some('\r')
    } else if c == 'b' {
        Some('\u{8}')
    } else if c == 'f' {
        Some('\u{c}')
    } else {
        None
    }
}

/// The value of a hex digit, either case.
pub open spec fn hex_val(c: char) -> Option<u32> {
    let n = c as u32;
    if 48 <= n && n <= 57 {
        Some((n - 48) as u32)
    } else if 97 <= n && n <= 102 {
        Some((n - 87) as u32)
    } else if 65 <= n && n <= 70 {
        Some((n - 55) as u32)
    } else {
        None
    }
}

/// A string body, starting just after the opening quote, up to and
/// including the closing quote.
pub open spec fn p_str(s: Seq<char>) -> Option<(Seq<char>, Seq<char>)>
    decreases s.len(),
{
    if s.len() == 0 {
        None
    } else if s[0] == '"' {
        Some((Seq::empty(), s.drop_first()))
    } else if s[0] == '\\' {
        if s.len() < 2 {
            None
        } else if s[1] == 'u' {
            if s.len() < 6 {
                None
            } else {
                match (hex_val(s[2]), hex_val(s[3]), hex_val(s[4]), hex_val(s[5])) {
                    (Some(a), Some(b), Some(h), Some(l)) => {
                        let n = (a * 4096 + b * 256 + h * 16 + l) as u32;
                        if n < 0xD800 || n > 0xDFFF {
                            let c = choose|c: char| #[trigger] (c as u32) == n;
                            match p_str(s.subrange(6, s.len() as int)) {
                                None => None,
                                Some(p) => Some((seq![c] + p.0, p.1)),
                            }
                        } else {
                            None
                        }
                    },
                    _ => None,
                }
            }
        } else {
            match unesc_char(s[1]) {
                None => None,
                Some(c) => match p_str(s.subrange(2, s.len() as int)) {
                    None => None,
                    Some(p) => Some((seq![c] + p.0, p.1)),
                },
            }
        }
    } else {
        match p_str(s.drop_first()) {
            None => None,
            Some(p) => Some((seq![s[0]] + p.0, p.1)),
        }
    }
}

/// One `"key": "value"` pair, leading whitespace allowed.
pub open spec fn p_pair(s: Seq<char>) -> Option<((Seq<char>, Seq<char>), Seq<char>)> {
    let s0 = skip_ws(s);
    if s0.len() == 0 || s0[0] != '"' {
        None
    } else {
        match p_str(s0.drop_first()) {
            None => None,
            Some(k) => {
                let s2 = skip_ws(k.1);
                if s2.len() == 0 || s2[0] != ':' {
                    None
                } else {
                    let s3 = skip_ws(s2.drop_first());
                    if s3.len() == 0 || s3[0] != '"' {
                        None
                    } else {
                        match p_str(s3.drop_first()) {
                            None => None,
                            Some(v) => Some(((k.0, v.0), v.1)),
                        }
                    }
                }
            },
        }
    }
}

pub open spec fn key_id() -> Seq<char> {
    seq!['i', 'd']
}

pub open spec fn key_name() -> Seq<char> {
    seq!['n', 'a', 'm', 'e']
}

/// One entry object: exactly an `id` and a `name` pair, either order.
pub open spec fn p_entry(s: Seq<char>) -> Option<(SubV, Seq<char>)> {
    let s0 = skip_ws(s);
    if s0.len() == 0 || s0[0] != '{' {
        None
    } else {
        match p_pair(s0.drop_first()) {
            None => None,
            Some(p1) => {
                let s2 = skip_ws(p1.1);
                if s2.len() == 0 || s2[0] != ',' {
                    None
                } else {
                    match p_pair(s2.drop_first()) {
                        None => None,
                        Some(p2) => {
                            let s4 = skip_ws(p2.1);
                            if s4.len() == 0 || s4[0] != '}' {
                                None
                            } else {
                                let rest = s4.drop_first();
                                let k1 = p1.0.0;
                                let v1 = p1.0.1;
                                let k2 = p2.0.0;
                                let v2 = p2.0.1;
                                if k1 == key_id() && k2 == key_name() {
                                    Some((SubV { id: v1, name: v2 }, rest))
                                } else if k1 == key_name() && k2 == key_id() {
                                    Some((SubV { id: v2, name: v1 }, rest))
                                } else {
                                    None
                                }
                            }
                        },
                    }
                }
            },
        }
    }
}

/// The entries after the first: `("," entry)* "]"`.
pub open spec fn p_entries_rest(s: Seq<char>, acc: Seq<SubV>) -> Option<(Seq<SubV>, Seq<char>)>
    decreases s.len(),
{
    let s0 = skip_ws(s);
    if s0.len() == 0 {
        None
    } else if s0[0] == ']' {
        Some((acc, s0.drop_first()))
    } else if s0[0] == ',' {
        match p_entry(s0.drop_first()) {
            None => None,
            Some(e) => if e.1.len() < s.len() {
                p_entries_rest(e.1, acc.push(e.0))
            } else {
                None
            },
        }
    } else {
        None
    }
}

/// A whole array of entries.
pub open spec fn p_array(s: Seq<char>) -> Option<(Seq<SubV>, Seq<char>)> {
    let s0 = skip_ws(s);
    if s0.len() == 0 || s0[0] != '[' {
        None
    } else {
        let s1 = skip_ws(s0.drop_first());
        if s1.len() == 0 {
            None
        } else if s1[0] == ']' {
            Some((Seq::empty(), s1.drop_first()))
        } else {
            match p_entry(s1) {
                None => None,
                Some(e) => if e.1.len() < s.len() {
                    p_entries_rest(e.1, seq![e.0])
                } else {
                    None
                },
            }
        }
    }
}

/// One member: a quoted user key and its array.
pub open spec fn p_member(s: Seq<char>) -> Option<(UserV, Seq<char>)> {
    let s0 = skip_ws(s);
    if s0.len() == 0 || s0[0] != '"' {
        None
    } else {
        match p_str(s0.drop_first()) {
            None => None,
            Some(k) => {
                let s2 = skip_ws(k.1);
                if s2.len() == 0 || s2[0] != ':' {
                    None
                } else {
                    match p_array(s2.drop_first()) {
                        None => None,
                        Some(a) => Some((UserV { user: k.0, subs: a.0 }, a.1)),
                    }
                }
            },
        }
    }
}

/// The members after the first: `("," member)* "}"`.
pub open spec fn p_members_rest(s: Seq<char>, acc: Seq<UserV>) -> Option<(Seq<UserV>, Seq<char>)>
    decreases s.len(),
{
    let s0 = skip_ws(s);
    if s0.len() == 0 {
        None
    } else if s0[0] == '}' {
        Some((acc, s0.drop_first()))
    } else if s0[0] == ',' {
        match p_member(s0.drop_first()) {
            None => None,
            Some(m) => if m.1.len() < s.len() {
                p_members_rest(m.1, acc.push(m.0))
            } else {
                None
            },
        }
    } else {
        None
    }
}

/// The raw document grammar: an object of members, then only whitespace.
pub open spec fn p_doc(s: Seq<char>) -> Option<Seq<UserV>> {
    let s0 = skip_ws(s);
    if s0.len() == 0 || s0[0] != '{' {
        None
    } else {
        let s1 = skip_ws(s0.drop_first());
        if s1.len() == 0 {
            None
        } else if s1[0] == '}' {
            if skip_ws(s1.drop_first()).len() == 0 {
                Some(Seq::empty())
            } else {
                None
            }
        } else {
            match p_member(s1) {
                None => None,
                Some(m) => match p_members_rest(m.1, seq![m.0]) {
                    None => None,
                    Some(d) => if skip_ws(d.1).len() == 0 {
                        Some(d.0)
                    } else {
                        None
                    },
                },
            }
        }
    }
}

/// What parsing means: the text must match the grammar and the result
/// must satisfy the document invariant (unique users, unique ids, no
/// empty lists); anything else is corrupt.
pub open spec fn parse_doc_spec(s: Seq<char>) -> Option<Seq<UserV>> {
    match p_doc(s) {
        None => None,
        Some(d) => if wf_doc(d) {
            Some(d)
        } else {
            None
        },
    }
}

/// What loading means: a missing file is an empty document; an existing
/// file must parse.
pub open spec fn load_spec(content: Option<Seq<char>>) -> Option<Seq<UserV>> {
    match content {
        None => Some(Seq::empty()),
        Some(s) => parse_doc_spec(s),
    }
}

// ---------------------------------------------------------------------
// Executable serializer.
// ---------------------------------------------------------------------
/// Relies on `String::push`: it appends exactly the given character.
#[verifier::external_body]
fn push_char(s: &mut String, c: char)
    ensures
        final(s)@ == old(s)@.push(c),
{
    s.push(c);
}

fn string_from_chars(v: &Vec<char>) -> (s: String)
    ensures
        s@ == v@,
{
    let mut s = String::new();
    let mut i: usize = 0;
    while i < v.len()
        invariant
            i <= v.len(),
            s@ == v@.subrange(0, i as int),
        decreases v.len() - i,
    {
        push_char(&mut s, v[i]);
        proof {
            assert(v@.subrange(0, i as int).push(v@[i as int]) =~= v@.subrange(0, i as int + 1));
        }
        i += 1;
    }
    proof {
        assert(v@.subrange(0, v@.len() as int) =~= v@);
    }
    s
}

fn push_str_chars(out: &mut Vec<char>, s: &str)
    ensures
        final(out)@ == old(out)@ + s@,
{
    let ghost start = out@;
    let n = s.unicode_len();
    let mut i: usize = 0;
    while i < n
        invariant
            i <= n,
            n == s@.len(),
            out@ == start + s@.subrange(0, i as int),
        decreases n - i,
    {
        out.push(s.get_char(i));
        proof {
            assert(s@.subrange(0, i as int).push(s@[i as int]) =~= s@.subrange(0, i as int + 1));
            assert(out@ =~= start + s@.subrange(0, i as int + 1));
        }
        i += 1;
    }
    proof {
        assert(s@.subrange(0, s@.len() as int) =~= s@);
    }
}

/// Escaping one more character at the end.
proof fn lemma_esc_push(a: Seq<char>, c: char)
    ensures
        esc(a.push(c)) == esc(a) + esc_char(c),
    decreases a.len(),
{
    let p = a.push(c);
    if a.len() == 0 {
        assert(p[0] == c);
        assert(p.drop_first() =~= Seq::<char>::empty());
        assert(esc(p.drop_first()) == Seq::<char>::empty());
        assert(esc(p) =~= esc(a) + esc_char(c));
    } else {
        lemma_esc_push(a.drop_first(), c);
        assert(p[0] == a[0]);
        assert(p.drop_first() =~= a.drop_first().push(c));
        assert(esc(p) == esc_char(a[0]) + esc(a.drop_first().push(c)));
        assert(esc(p) =~= esc(a) + esc_char(c));
    }
}

fn x_hex_lo(n: u32) -> (r: char)
    requires
        n < 16,
    ensures
        r == hex_lo(n),
{
    if n == 0 {
        '0'
    } else if n == 1 {
        '1'
    } else if n == 2 {
        '2'
    } else if n == 3 {
        '3'
    } else if n == 4 {
        '4'
    } else if n == 5 {
        '5'
    } else if n == 6 {
        '6'
    } else if n == 7 {
        '7'
    } else if n == 8 {
        '8'
    } else if n == 9 {
        '9'
    } else if n == 10 {
        'a'
    } else if n == 11 {
        'b'
    } else if n == 12 {
        'c'
    } else if n == 13 {
        'd'
    } else if n == 14 {
        'e'
    } else {
        'f'
    }
}

fn push_escaped(out: &mut Vec<char>, s: &str)
    ensures
        final(out)@ == old(out)@ + esc(s@),
{
    let ghost start = out@;
    let n = s.unicode_len();
    let mut i: usize = 0;
    while i < n
        invariant
            i <= n,
            n == s@.len(),
            out@ == start + esc(s@.subrange(0, i as int)),
        decreases n - i,
    {
        let c = s.get_char(i);
        proof {
            lemma_esc_push(s@.subrange(0, i as int), s@[i as int]);
            assert(s@.subrange(0, i as int).push(s@[i as int]) =~= s@.subrange(0, i as int + 1));
        }
        if c == '"' {
            out.push('\\');
            out.push('"');
        } else if c == '\\' {
            out.push('\\');
            out.push('\\');
        } else if c == '\u{8}' {
            out.push('\\');
            out.push('b');
        } else if c == '\t' {
            out.push('\\');
            out.push('t');
        } else if c == '\n' {
            out.push('\\');
            out.push('n');
        } else if c == '\u{c}' {
            out.push('\\');
            out.push('f');
        } else if c == '\r' {
            out.push('\\');
            out.push('r');
        } else if (c as u32) < 32 {
            let code = c as u32;
            out.push('\\');
            out.push('u');
            out.push('0');
            out.push('0');
            out.push(x_hex_lo(code / 16));
            out.push(x_hex_lo(code % 16));
        } else {
            out.push(c);
        }
        proof {
            assert(out@ =~= start + esc(s@.subrange(0, i as int + 1)));
        }
        i += 1;
    }
    proof {
        assert(s@.subrange(0, s@.len() as int) =~= s@);
    }
}

fn push_sub(out: &mut Vec<char>, s: &Subscription)
    ensures
        final(out)@ == old(out)@ + ser_sub(s@),
{
    push_str_chars(out, "    {\n      \"id\": \"");
    push_escaped(out, s.id.as_str());
    push_str_chars(out, "\",\n      \"name\": \"");
    push_escaped(out, s.name.as_str());
    push_str_chars(out, "\"\n    }");
}

/// Serializing one more entry at the end of a user's list.
proof fn lemma_ser_subs_push(a: Seq<SubV>, x: SubV)
    ensures
        ser_subs(a.push(x)) == ser_subs(a) + (if a.len() == 0 {
            Seq::<char>::empty()
        } else {
            ",\n"@
        }) + ser_sub(x),
    decreases a.len(),
{
    let p = a.push(x);
    if a.len() == 0 {
        assert(p.len() == 1);
        assert(p[0] == x);
        assert(ser_subs(p) == ser_sub(x));
        assert(ser_subs(p) =~= ser_subs(a) + Seq::<char>::empty() + ser_sub(x));
    } else if a.len() == 1 {
        assert(p.len() == 2);
        assert(p[0] == a[0]);
        assert(p.drop_first() =~= seq![x]);
        assert(ser_subs(p.drop_first()) == ser_sub(x));
        assert(ser_subs(p) =~= ser_subs(a) + ",\n"@ + ser_sub(x));
    } else {
        lemma_ser_subs_push(a.drop_first(), x);
        assert(p[0] == a[0]);
        assert(p.drop_first() =~= a.drop_first().push(x));
        assert(ser_subs(p) == ser_sub(a[0]) + ",\n"@ + ser_subs(a.drop_first().push(x)));
        assert(ser_subs(p) =~= ser_subs(a) + ",\n"@ + ser_sub(x));
    }
}

/// Serializing one more member at the end of the document.
proof fn lemma_ser_users_push(a: Seq<UserV>, x: UserV)
    ensures
        ser_users(a.push(x)) == ser_users(a) + (if a.len() == 0 {
            Seq::<char>::empty()
        } else {
            ",\n"@
        }) + ser_user(x),
    decreases a.len(),
{
    let p = a.push(x);
    if a.len() == 0 {
        assert(p.len() == 1);
        assert(p[0] == x);
        assert(ser_users(p) == ser_user(x));
        assert(ser_users(p) =~= ser_users(a) + Seq::<char>::empty() + ser_user(x));
    } else if a.len() == 1 {
        assert(p.len() == 2);
        assert(p[0] == a[0]);
        assert(p.drop_first() =~= seq![x]);
        assert(ser_users(p.drop_first()) == ser_user(x));
        assert(ser_users(p) =~= ser_users(a) + ",\n"@ + ser_user(x));
    } else {
        lemma_ser_users_push(a.drop_first(), x);
        assert(p[0] == a[0]);
        assert(p.drop_first() =~= a.drop_first().push(x));
        assert(ser_users(p) == ser_user(a[0]) + ",\n"@ + ser_users(a.drop_first().push(x)));
        assert(ser_users(p) =~= ser_users(a) + ",\n"@ + ser_user(x));
    }
}

fn push_user(out: &mut Vec<char>, u: &UserSubs)
    ensures
        final(out)@ == old(out)@ + ser_user(u@),
{
    let ghost start = out@;
    push_str_chars(out, "  \"");
    push_escaped(out, u.user.as_str());
    push_str_chars(out, "\": [\n");
    let ghost head = out@;
    let mut i: usize = 0;
    while i < u.subs.len()
        invariant
            i <= u.subs.len(),
            u@.subs.len() == u.subs@.len(),
            out@ == head + ser_subs(u@.subs.subrange(0, i as int)),
        decreases u.subs.len() - i,
    {
        if i > 0 {
            push_str_chars(out, ",\n");
        }
        push_sub(out, &u.subs[i]);
        proof {
            lemma_ser_subs_push(u@.subs.subrange(0, i as int), u@.subs[i as int]);
            assert(u@.subs.subrange(0, i as int).push(u@.subs[i as int]) =~= u@.subs.subrange(
                0,
                i as int + 1,
            ));
            assert(u.subs@[i as int]@ == u@.subs[i as int]);
            assert(out@ =~= head + ser_subs(u@.subs.subrange(0, i as int + 1)));
        }
        i += 1;
    }
    proof {
        assert(u@.subs.subrange(0, u@.subs.len() as int) =~= u@.subs);
    }
    push_str_chars(out, "\n  ]");
    proof {
        assert(out@ =~= start + ser_user(u@));
    }
}

/// Serialize a document to its persisted text: deterministic, pretty
/// printed, keys in document order.
pub fn save(d: &Document) -> (r: String)
    ensures
        r@ == ser_doc(d@),
{
    let mut out: Vec<char> = Vec::new();
    if d.users.len() == 0 {
        push_str_chars(&mut out, "{}");
        proof {
            assert(out@ =~= ser_doc(d@));
        }
    } else {
        push_str_chars(&mut out, "{\n");
        let mut i: usize = 0;
        while i < d.users.len()
            invariant
                i <= d.users.len(),
                d@.len() == d.users@.len(),
                out@ == "{\n"@ + ser_users(d@.subrange(0, i as int)),
            decreases d.users.len() - i,
        {
            if i > 0 {
                push_str_chars(&mut out, ",\n");
            }
            push_user(&mut out, &d.users[i]);
            proof {
                lemma_ser_users_push(d@.subrange(0, i as int), d@[i as int]);
                assert(d@.subrange(0, i as int).push(d@[i as int]) =~= d@.subrange(0, i as int + 1));
                assert(d.users@[i as int]@ == d@[i as int]);
                assert(out@ =~= "{\n"@ + ser_users(d@.subrange(0, i as int + 1)));
            }
            i += 1;
        }
        proof {
            assert(d@.subrange(0, d@.len() as int) =~= d@);
        }
        push_str_chars(&mut out, "\n}");
        proof {
            assert(out@ =~= ser_doc(d@));
        }
    }
    string_from_chars(&out)
}

// ---------------------------------------------------------------------
// Executable parser. Each function works on the character vector at a
// position and refines the corresponding model-level parse function on
// the suffix starting there.
// ---------------------------------------------------------------------
/// The suffix of `s` from position `i`.
spec fn suf(s: Seq<char>, i: int) -> Seq<char> {
    s.subrange(i, s.len() as int)
}

proof fn lemma_suf(s: Seq<char>, i: int)
    requires
        0 <= i < s.len(),
    ensures
        suf(s, i).len() == s.len() - i,
        suf(s, i)[0] == s[i],
        suf(s, i).drop_first() =~= suf(s, i + 1),
{
}

fn chars_vec(s: &str) -> (v: Vec<char>)
    ensures
        v@ == s@,
{
    let n = s.unicode_len();
    let mut v: Vec<char> = Vec::new();
    let mut i: usize = 0;
    while i < n
        invariant
            i <= n,
            n == s@.len(),
            v@ == s@.subrange(0, i as int),
        decreases n - i,
    {
        v.push(s.get_char(i));
        proof {
            assert(s@.subrange(0, i as int).push(s@[i as int]) =~= s@.subrange(0, i as int + 1));
        }
        i += 1;
    }
    proof {
        assert(s@.subrange(0, s@.len() as int) =~= s@);
    }
    v
}

fn ws_char(c: char) -> (b: bool)
    ensures
        b == is_ws(c),
{
    c == ' ' || c == '\n' || c == '\t' || c == '\r'
}

fn x_skip_ws(s: &Vec<char>, i: usize) -> (r: usize)
    requires
        i <= s@.len(),
    ensures
        i <= r <= s@.len(),
        suf(s@, r as int) == skip_ws(suf(s@, i as int)),
        r == s@.len() || !is_ws(s@[r as int]),
{
    let mut k = i;
    while k < s.len() && ws_char(s[k])
        invariant
            i <= k <= s@.len(),
            skip_ws(suf(s@, i as int)) == skip_ws(suf(s@, k as int)),
        decreases s@.len() - k,
    {
        proof {
            lemma_suf(s@, k as int);
        }
        k += 1;
    }
    proof {
        if k < s.len() {
            lemma_suf(s@, k as int);
        }
        assert(skip_ws(suf(s@, k as int)) == suf(s@, k as int));
    }
    k
}

fn x_unesc(c: char) -> (r: Option<char>)
    ensures
        r == unesc_char(c),
{
    if c == '"' {
        Some('"')
    } else if c == '\\' {
        Some('\\')
    } else if c == '/' {
        Some('/')
    } else if c == 'n' {
        Some('\n')
    } else if c == 't' {
        Some('\t')
    } else if c == 'r' {
        Some('\r')
    } else if c == 'b' {
        Some('\u{8}')
    } else if c == 'f' {
        Some('\u{c}')
    } else {
        None
    }
}

/// Relies on `char::from_u32`: it returns the character with the given
/// code point, and `None` exactly for surrogates and values beyond the
/// highest code point.
#[verifier::external_body]
fn x_char_of(n: u32) -> (r: Option<char>)
    ensures
        r is Some <==> (n < 0xD800 || (0xE000 <= n && n <= 0x10FFFF)),
        r matches Some(c) ==> c as u32 == n,
{
    char::from_u32(n)
}

fn x_hex(c: char) -> (r: Option<u32>)
    ensures
        r == hex_val(c),
        r matches Some(v) ==> v < 16,
{
    let n = c as u32;
    if 48 <= n && n <= 57 {
        Some(n - 48)
    } else if 97 <= n && n <= 102 {
        Some(n - 87)
    } else if 65 <= n && n <= 70 {
        Some(n - 55)
    } else {
        None
    }
}

fn x_str(s: &Vec<char>, i: usize) -> (r: Option<(Vec<char>, usize)>)
    requires
        i <= s@.len(),
    ensures
        match r {
            Some(p) => i <= p.1 <= s@.len() && p_str(suf(s@, i as int)) == Some(
                (p.0@, suf(s@, p.1 as int)),
            ),
            None => p_str(suf(s@, i as int)) is None,
        },
    decreases s@.len() - i,
{
    if i >= s.len() {
        return None;
    }
    proof {
        lemma_suf(s@, i as int);
    }
    let c = s[i];
    if c == '"' {
        let v: Vec<char> = Vec::new();
        proof {
            assert(v@ =~= Seq::<char>::empty());
        }
        Some((v, i + 1))
    } else if c == '\\' {
        if i + 1 >= s.len() {
            return None;
        }
        if s[i + 1] == 'u' {
            if s.len() - i < 6 {
                return None;
            }
            proof {
                assert(suf(s@, i as int)[2] == s@[i as int + 2]);
                assert(suf(s@, i as int)[3] == s@[i as int + 3]);
                assert(suf(s@, i as int)[4] == s@[i as int + 4]);
                assert(suf(s@, i as int)[5] == s@[i as int + 5]);
                assert(suf(s@, i as int).subrange(6, suf(s@, i as int).len() as int) =~= suf(
                    s@,
                    i as int + 6,
                ));
            }
            match (x_hex(s[i + 2]), x_hex(s[i + 3]), x_hex(s[i + 4]), x_hex(s[i + 5])) {
                (Some(a), Some(b), Some(h), Some(l)) => {
                    let n = a * 4096 + b * 256 + h * 16 + l;
                    match x_char_of(n) {
                        None => None,
                        Some(cc) => {
                            proof {
                                assert(cc as u32 == n);
                                assert(exists|c: char| #[trigger] (c as u32) == n);
                                let cw = choose|c: char| #[trigger] (c as u32) == n;
                                assert(cw as u32 == n);
                                lemma_char_inj(cc, cw);
                            }
                            match x_str(s, i + 6) {
                                None => None,
                                Some((mut v, j)) => {
                                    let ghost tail = v@;
                                    v.insert(0, cc);
                                    proof {
                                        assert(v@ =~= seq![cc] + tail);
                                    }
                                    Some((v, j))
                                },
                            }
                        },
                    }
                },
                _ => None,
            }
        } else {
            proof {
                assert(suf(s@, i as int).subrange(2, suf(s@, i as int).len() as int) =~= suf(
                    s@,
                    i as int + 2,
                ));
            }
            match x_unesc(s[i + 1]) {
                None => None,
                Some(cc) => {
                    match x_str(s, i + 2) {
                        None => None,
                        Some((mut v, j)) => {
                            let ghost tail = v@;
                            v.insert(0, cc);
                            proof {
                                assert(v@ =~= seq![cc] + tail);
                            }
                            Some((v, j))
                        },
                    }
                },
            }
        }
    } else {
        match x_str(s, i + 1) {
            None => None,
            Some((mut v, j)) => {
                let ghost tail = v@;
                v.insert(0, c);
                proof {
                    assert(v@ =~= seq![c] + tail);
                }
                Some((v, j))
            },
        }
    }
}

fn x_pair(s: &Vec<char>, i: usize) -> (r: Option<((Vec<char>, Vec<char>), usize)>)
    requires
        i <= s@.len(),
    ensures
        match r {
            Some(p) => i <= p.1 <= s@.len() && p_pair(suf(s@, i as int)) == Some(
                (((p.0.0)@, (p.0.1)@), suf(s@, p.1 as int)),
            ),
            None => p_pair(suf(s@, i as int)) is None,
        },
{
    let k0 = x_skip_ws(s, i);
    if k0 >= s.len() {
        return None;
    }
    proof {
        lemma_suf(s@, k0 as int);
    }
    if !(s[k0] == '"') {
        return None;
    }
    match x_str(s, k0 + 1) {
        None => None,
        Some((key, j1)) => {
            let k2 = x_skip_ws(s, j1);
            if k2 >= s.len() {
                return None;
            }
            proof {
                lemma_suf(s@, k2 as int);
            }
            if !(s[k2] == ':') {
                return None;
            }
            let k3 = x_skip_ws(s, k2 + 1);
            if k3 >= s.len() {
                return None;
            }
            proof {
                lemma_suf(s@, k3 as int);
            }
            if !(s[k3] == '"') {
                return None;
            }
            match x_str(s, k3 + 1) {
                None => None,
                Some((val, j2)) => Some(((key, val), j2)),
            }
        },
    }
}

fn key_is(v: &Vec<char>, a: char, b: char) -> (r: bool)
    ensures
        r == (v@ == seq![a, b]),
{
    let r = v.len() == 2 && v[0] == a && v[1] == b;
    proof {
        if r {
            assert(v@ =~= seq![a, b]);
        }
        if v@ == seq![a, b] {
            assert(v@.len() == 2);
            assert(v@[0] == a);
            assert(v@[1] == b);
        }
    }
    r
}

fn key_is4(v: &Vec<char>, a: char, b: char, c: char, d: char) -> (r: bool)
    ensures
        r == (v@ == seq![a, b, c, d]),
{
    let r = v.len() == 4 && v[0] == a && v[1] == b && v[2] == c && v[3] == d;
    proof {
        if r {
            assert(v@ =~= seq![a, b, c, d]);
        }
        if v@ == seq![a, b, c, d] {
            assert(v@.len() == 4);
            assert(v@[0] == a);
            assert(v@[1] == b);
            assert(v@[2] == c);
            assert(v@[3] == d);
        }
    }
    r
}

fn x_entry(s: &Vec<char>, i: usize) -> (r: Option<(Subscription, usize)>)
    requires
        i <= s@.len(),
    ensures
        match r {
            Some(p) => i <= p.1 <= s@.len() && p_entry(suf(s@, i as int)) == Some(
                (p.0@, suf(s@, p.1 as int)),
            ),
            None => p_entry(suf(s@, i as int)) is None,
        },
{
    let k0 = x_skip_ws(s, i);
    if k0 >= s.len() {
        return None;
    }
    proof {
        lemma_suf(s@, k0 as int);
    }
    if !(s[k0] == '{') {
        return None;
    }
    match x_pair(s, k0 + 1) {
        None => None,
        Some(((k1, v1), j1)) => {
            let k2 = x_skip_ws(s, j1);
            if k2 >= s.len() {
                return None;
            }
            proof {
                lemma_suf(s@, k2 as int);
            }
            if !(s[k2] == ',') {
                return None;
            }
            match x_pair(s, k2 + 1) {
                None => None,
                Some(((k3, v3), j2)) => {
                    let k4 = x_skip_ws(s, j2);
                    if k4 >= s.len() {
                        return None;
                    }
                    proof {
                        lemma_suf(s@, k4 as int);
                    }
                    if !(s[k4] == '}') {
                        return None;
                    }
                    if key_is(&k1, 'i', 'd') && key_is4(&k3, 'n', 'a', 'm', 'e') {
                        let sub = Subscription {
                            id: string_from_chars(&v1),
                            name: string_from_chars(&v3),
                        };
                        Some((sub, k4 + 1))
                    } else if key_is4(&k1, 'n', 'a', 'm', 'e') && key_is(&k3, 'i', 'd') {
                        let sub = Subscription {
                            id: string_from_chars(&v3),
                            name: string_from_chars(&v1),
                        };
                        Some((sub, k4 + 1))
                    } else {
                        None
                    }
                },
            }
        },
    }
}

fn x_array(s: &Vec<char>, i: usize) -> (r: Option<(Vec<Subscription>, usize)>)
    requires
        i <= s@.len(),
    ensures
        match r {
            Some(p) => i <= p.1 <= s@.len() && p_array(suf(s@, i as int)) == Some(
                (subs_view(p.0@), suf(s@, p.1 as int)),
            ),
            None => p_array(suf(s@, i as int)) is None,
        },
{
    let k0 = x_skip_ws(s, i);
    if k0 >= s.len() {
        return None;
    }
    proof {
        lemma_suf(s@, k0 as int);
    }
    if !(s[k0] == '[') {
        return None;
    }
    let k1 = x_skip_ws(s, k0 + 1);
    if k1 >= s.len() {
        return None;
    }
    proof {
        lemma_suf(s@, k1 as int);
    }
    if s[k1] == ']' {
        let v: Vec<Subscription> = Vec::new();
        proof {
            assert(subs_view(v@) =~= Seq::<SubV>::empty());
        }
        return Some((v, k1 + 1));
    }
    match x_entry(s, k1) {
        None => None,
        Some((e, j1)) => {
            if !(j1 > i) {
                return None;
            }
            let mut acc: Vec<Subscription> = Vec::new();
            let ghost e0 = e@;
            acc.push(e);
            proof {
                assert(subs_view(acc@) =~= seq![e0]);
            }
            let mut cur = j1;
            loop
                invariant
                    i <= cur <= s@.len(),
                    p_array(suf(s@, i as int)) == p_entries_rest(
                        suf(s@, cur as int),
                        subs_view(acc@),
                    ),
                decreases s@.len() - cur,
            {
                let k = x_skip_ws(s, cur);
                if k >= s.len() {
                    return None;
                }
                proof {
                    lemma_suf(s@, k as int);
                }
                if s[k] == ']' {
                    return Some((acc, k + 1));
                }
                if !(s[k] == ',') {
                    return None;
                }
                match x_entry(s, k + 1) {
                    None => {
                        return None;
                    },
                    Some((e2, j2)) => {
                        if !(j2 > cur) {
                            return None;
                        }
                        let ghost ev = e2@;
                        let ghost accv = subs_view(acc@);
                        acc.push(e2);
                        proof {
                            assert(subs_view(acc@) =~= accv.push(ev));
                        }
                        cur = j2;
                    },
                }
            }
        },
    }
}

fn x_member(s: &Vec<char>, i: usize) -> (r: Option<(UserSubs, usize)>)
    requires
        i <= s@.len(),
    ensures
        match r {
            Some(p) => i <= p.1 <= s@.len() && p_member(suf(s@, i as int)) == Some(
                (p.0@, suf(s@, p.1 as int)),
            ),
            None => p_member(suf(s@, i as int)) is None,
        },
{
    let k0 = x_skip_ws(s, i);
    if k0 >= s.len() {
        return None;
    }
    proof {
        lemma_suf(s@, k0 as int);
    }
    if !(s[k0] == '"') {
        return None;
    }
    match x_str(s, k0 + 1) {
        None => None,
        Some((key, j1)) => {
            let k2 = x_skip_ws(s, j1);
            if k2 >= s.len() {
                return None;
            }
            proof {
                lemma_suf(s@, k2 as int);
            }
            if !(s[k2] == ':') {
                return None;
            }
            match x_array(s, k2 + 1) {
                None => None,
                Some((subs, j2)) => {
                    let u = UserSubs { user: string_from_chars(&key), subs };
                    Some((u, j2))
                },
            }
        },
    }
}

fn x_doc(s: &Vec<char>) -> (r: Option<Document>)
    ensures
        match r {
            Some(d) => p_doc(s@) == Some(d@),
            None => p_doc(s@) is None,
        },
{
    proof {
        assert(suf(s@, 0) =~= s@);
    }
    let k0 = x_skip_ws(s, 0);
    if k0 >= s.len() {
        return None;
    }
    proof {
        lemma_suf(s@, k0 as int);
    }
    if !(s[k0] == '{') {
        return None;
    }
    let k1 = x_skip_ws(s, k0 + 1);
    if k1 >= s.len() {
        return None;
    }
    proof {
        lemma_suf(s@, k1 as int);
    }
    if s[k1] == '}' {
        let k2 = x_skip_ws(s, k1 + 1);
        if k2 < s.len() {
            return None;
        }
        proof {
            assert(suf(s@, k2 as int).len() == 0);
        }
        let d = Document { users: Vec::new() };
        proof {
            assert(d@ =~= Seq::<UserV>::empty());
        }
        return Some(d);
    }
    match x_member(s, k1) {
        None => None,
        Some((m, j1)) => {
            let mut users: Vec<UserSubs> = Vec::new();
            let ghost m0 = m@;
            users.push(m);
            proof {
                assert(crate::store::users_view(users@) =~= seq![m0]);
            }
            let mut cur = j1;
            loop
                invariant
                    cur <= s@.len(),
                    p_doc(s@) == (match p_members_rest(
                        suf(s@, cur as int),
                        crate::store::users_view(users@),
                    ) {
                        None => None::<Seq<UserV>>,
                        Some(d) => if skip_ws(d.1).len() == 0 {
                            Some(d.0)
                        } else {
                            None
                        },
                    }),
                decreases s@.len() - cur,
            {
                let k = x_skip_ws(s, cur);
                if k >= s.len() {
                    return None;
                }
                proof {
                    lemma_suf(s@, k as int);
                }
                if s[k] == '}' {
                    let k2 = x_skip_ws(s, k + 1);
                    if k2 < s.len() {
                        return None;
                    }
                    proof {
                        assert(suf(s@, k2 as int).len() == 0);
                    }
                    return Some(Document { users });
                }
                if !(s[k] == ',') {
                    return None;
                }
                match x_member(s, k + 1) {
                    None => {
                        return None;
                    },
                    Some((m2, j2)) => {
                        if !(j2 > cur) {
                            return None;
                        }
                        let ghost mv = m2@;
                        let ghost uv = crate::store::users_view(users@);
                        users.push(m2);
                        proof {
                            assert(crate::store::users_view(users@) =~= uv.push(mv));
                        }
                        cur = j2;
                    },
                }
            }
        },
    }
}

fn check_ids_unique(subs: &Vec<Subscription>) -> (b: bool)
    ensures
        b == (forall|j: int, k: int|
            0 <= j < k < subs_view(subs@).len() ==> subs_view(subs@)[j].id != subs_view(
                subs@,
            )[k].id),
{
    let ghost sv = subs_view(subs@);
    let mut k: usize = 0;
    while k < subs.len()
        invariant
            k <= sv.len(),
            sv == subs_view(subs@),
            forall|x: int, y: int| 0 <= x < y < k ==> sv[x].id != sv[y].id,
        decreases subs.len() - k,
    {
        let mut j: usize = 0;
        while j < k
            invariant
                j <= k < sv.len(),
                sv == subs_view(subs@),
                forall|x: int| 0 <= x < j ==> sv[x].id != sv[k as int].id,
            decreases k - j,
        {
            if subs[j].id == subs[k].id {
                proof {
                    assert(sv[j as int].id == sv[k as int].id);
                    assert(!(forall|x: int, y: int| 0 <= x < y < sv.len() ==> sv[x].id != sv[y].id));
                }
                return false;
            }
            j += 1;
        }
        k += 1;
    }
    true
}

fn check_wf(d: &Document) -> (b: bool)
    ensures
        b == wf_doc(d@),
{
    let ghost dv = d@;
    let mut i: usize = 0;
    while i < d.users.len()
        invariant
            i <= dv.len(),
            dv == d@,
            forall|x: int, y: int| 0 <= x < y < i ==> dv[x].user != dv[y].user,
            forall|x: int| 0 <= x < i ==> wf_subs(#[trigger] dv[x].subs),
        decreases d.users.len() - i,
    {
        if d.users[i].subs.len() == 0 {
            proof {
                assert(!wf_subs(dv[i as int].subs));
            }
            return false;
        }
        if !check_ids_unique(&d.users[i].subs) {
            proof {
                assert(!wf_subs(dv[i as int].subs));
            }
            return false;
        }
        let mut j: usize = 0;
        while j < i
            invariant
                j <= i < dv.len(),
                dv == d@,
                forall|x: int| 0 <= x < j ==> dv[x].user != dv[i as int].user,
            decreases i - j,
        {
            if d.users[j].user == d.users[i].user {
                proof {
                    assert(dv[j as int].user == dv[i as int].user);
                    assert(!(forall|x: int, y: int|
                        0 <= x < y < dv.len() ==> dv[x].user != dv[y].user));
                }
                return false;
            }
            j += 1;
        }
        i += 1;
    }
    true
}

/// Parse the persisted text into a document; `None` means the text is
/// corrupt: it does not match the grammar, or it violates the document
/// invariant (duplicate users, duplicate ids, or an empty list).
pub fn parse(s: &str) -> (r: Option<Document>)
    ensures
        match r {
            Some(d) => parse_doc_spec(s@) == Some(d@) && wf_doc(d@),
            None => parse_doc_spec(s@) is None,
        },
{
    let cs = chars_vec(s);
    match x_doc(&cs) {
        None => None,
        Some(d) => {
            if check_wf(&d) {
                Some(d)
            } else {
                None
            }
        },
    }
}

/// The view of an optional file content.
pub open spec fn content_view(c: Option<&str>) -> Option<Seq<char>> {
    match c {
        None => None,
        Some(s) => Some(s@),
    }
}

// ---------------------------------------------------------------------
// The round trip: parsing inverts serialization.
// ---------------------------------------------------------------------
/// A sequence of whitespace characters only.
spec fn ws_only(w: Seq<char>) -> bool {
    forall|k: int| 0 <= k < w.len() ==> is_ws(#[trigger] w[k])
}

/// Leading whitespace is skipped no matter what follows.
proof fn lemma_skip_ws_concat(w: Seq<char>, s: Seq<char>)
    requires
        ws_only(w),
    ensures
        skip_ws(w + s) == skip_ws(s),
    decreases w.len(),
{
    if w.len() == 0 {
        assert(w + s =~= s);
    } else {
        lemma_skip_ws_concat(w.drop_first(), s);
        assert((w + s)[0] == w[0]);
        assert(is_ws((w + s)[0]));
        assert((w + s).len() > 0);
        assert((w + s).drop_first() =~= w.drop_first() + s);
    }
}

/// Two characters with one code point are one character.
proof fn lemma_char_inj(a: char, b: char)
    requires
        a as u32 == b as u32,
    ensures
        a == b,
{
    assert(forall|ca: char, cb: char|
        #[trigger] (ca as u32) == #[trigger] (cb as u32) ==> ca == cb);
}

/// A sequence with no character the serializer would escape.
spec fn no_esc(s: Seq<char>) -> bool {
    forall|k: int| 0 <= k < s.len() ==> #[trigger] s[k] != '"' && s[k] != '\\' && (s[k] as u32) >= 32
}

/// Escaping leaves an escape-free sequence alone.
proof fn lemma_esc_noesc(s: Seq<char>)
    requires
        no_esc(s),
    ensures
        esc(s) == s,
    decreases s.len(),
{
    if s.len() == 0 {
        assert(esc(s) =~= s);
    } else {
        assert(s[0] != '"' && s[0] != '\\' && (s[0] as u32) >= 32);
        lemma_esc_noesc(s.drop_first());
        assert(esc(s) == seq![s[0]] + s.drop_first());
        assert(esc(s) =~= s);
    }
}

/// Parsing a string body undoes escaping, whatever follows the closing
/// quote.
proof fn lemma_p_str_ser(k: Seq<char>, t: Seq<char>)
    ensures
        p_str(esc(k) + seq!['"'] + t) == Some((k, t)),
    decreases k.len(),
{
    let s = esc(k) + seq!['"'] + t;
    if k.len() == 0 {
        assert(esc(k) == Seq::<char>::empty());
        assert(s =~= seq!['"'] + t);
        assert(s[0] == '"');
        assert(s.drop_first() =~= t);
        assert(k =~= Seq::<char>::empty());
    } else {
        let k0 = k[0];
        let kr = k.drop_first();
        lemma_p_str_ser(kr, t);
        assert(esc(k) == esc_char(k0) + esc(kr));
        let tail = esc(kr) + seq!['"'] + t;
        if k0 == '"' || k0 == '\\' || k0 == '\u{8}' || k0 == '\t' || k0 == '\n' || k0 == '\u{c}'
            || k0 == '\r' {
            let e = esc_char(k0)[1];
            assert(esc_char(k0) == seq!['\\', e]);
            assert(s =~= seq!['\\', e] + tail);
            assert(s[0] == '\\');
            assert(s.len() >= 2);
            assert(s[1] == e);
            assert(e != 'u');
            assert(unesc_char(s[1]) == Some(k0));
            assert(s.subrange(2, s.len() as int) =~= tail);
            assert(p_str(s) == Some((seq![k0] + kr, t)));
            assert(seq![k0] + kr =~= k);
        } else if (k0 as u32) < 32 {
            let n0 = k0 as u32;
            let h = n0 / 16;
            let l = n0 % 16;
            assert(esc_char(k0) == seq!['\\', 'u', '0', '0', hex_lo(h), hex_lo(l)]);
            assert(s =~= seq!['\\', 'u', '0', '0', hex_lo(h), hex_lo(l)] + tail);
            assert(s[0] == '\\');
            assert(s.len() >= 6);
            assert(s[1] == 'u');
            assert(s[2] == '0' && s[3] == '0');
            assert(h < 16 && l < 16);
            assert(hex_val(s[2]) == Some(0u32));
            assert(hex_val(s[3]) == Some(0u32));
            assert(hex_val(hex_lo(h)) == Some(h));
            assert(hex_val(hex_lo(l)) == Some(l));
            let n = (0 * 4096 + 0 * 256 + h * 16 + l) as u32;
            assert(n == n0);
            assert(n < 0xD800);
            assert(k0 as u32 == n);
            assert(exists|c: char| #[trigger] (c as u32) == n);
            let c2 = choose|c: char| #[trigger] (c as u32) == n;
            assert(c2 as u32 == n);
            lemma_char_inj(c2, k0);
            assert(c2 == k0);
            assert(s.subrange(6, s.len() as int) =~= tail);
            assert(p_str(s) == Some((seq![k0] + kr, t)));
            assert(seq![k0] + kr =~= k);
        } else {
            assert(esc_char(k0) == seq![k0]);
            assert(s =~= seq![k0] + tail);
            assert(s[0] == k0);
            assert(s.drop_first() =~= tail);
            assert(p_str(s) == Some((seq![k0] + kr, t)));
            assert(seq![k0] + kr =~= k);
        }
    }
}

/// Parsing a pair undoes serializing one, whatever follows it.
proof fn lemma_p_pair_ser(w: Seq<char>, key: Seq<char>, val: Seq<char>, t: Seq<char>)
    requires
        ws_only(w),
        no_esc(key),
    ensures
        p_pair(w + seq!['"'] + key + seq!['"', ':', ' ', '"'] + esc(val) + seq!['"'] + t) == Some(
            ((key, val), t),
        ),
{
    let s = w + seq!['"'] + key + seq!['"', ':', ' ', '"'] + esc(val) + seq!['"'] + t;
    let head = seq!['"'] + key + seq!['"', ':', ' ', '"'] + esc(val) + seq!['"'] + t;
    assert(s =~= w + head);
    lemma_skip_ws_concat(w, head);
    assert(head[0] == '"');
    assert(!is_ws('"'));
    assert(skip_ws(head) == head);
    let s0 = skip_ws(s);
    assert(s0 == head);
    lemma_esc_noesc(key);
    let after_key = seq![':', ' ', '"'] + esc(val) + seq!['"'] + t;
    assert(s0.drop_first() =~= esc(key) + seq!['"'] + after_key);
    lemma_p_str_ser(key, after_key);
    assert(p_str(s0.drop_first()) == Some((key, after_key)));
    assert(after_key[0] == ':');
    assert(!is_ws(':'));
    let s2 = skip_ws(after_key);
    assert(s2 == after_key);
    assert(s2.drop_first() =~= seq![' '] + (seq!['"'] + esc(val) + seq!['"'] + t));
    lemma_skip_ws_concat(seq![' '], seq!['"'] + esc(val) + seq!['"'] + t);
    let s3 = skip_ws(s2.drop_first());
    assert((seq!['"'] + esc(val) + seq!['"'] + t)[0] == '"');
    assert(s3 == seq!['"'] + esc(val) + seq!['"'] + t);
    assert(s3.drop_first() =~= esc(val) + seq!['"'] + t);
    lemma_p_str_ser(val, t);
    assert(p_str(s3.drop_first()) == Some((val, t)));
}

/// Parsing an entry undoes serializing one, under any leading
/// whitespace and whatever follows it. Also pins the first significant
/// character, so callers can tell an entry from a closing bracket.
#[verifier::rlimit(50)]
proof fn lemma_p_entry_ser(w: Seq<char>, e: SubV, t: Seq<char>)
    requires
        ws_only(w),
    ensures
        p_entry(w + ser_sub(e) + t) == Some((e, t)),
        skip_ws(w + ser_sub(e) + t).len() > 0,
        skip_ws(w + ser_sub(e) + t)[0] == '{',
{
    let s = w + ser_sub(e) + t;
    let w6 = seq!['\n', ' ', ' ', ' ', ' ', ' ', ' '];
    let kid = seq!['i', 'd'];
    let knm = seq!['n', 'a', 'm', 'e'];
    let w4c = seq!['\n', ' ', ' ', ' ', ' '];
    let t2 = w4c + seq!['}'] + t;
    let pair2 = w6 + seq!['"'] + knm + seq!['"', ':', ' ', '"'] + esc(e.name) + seq!['"'] + t2;
    let t1 = seq![','] + pair2;
    let pair1 = w6 + seq!['"'] + kid + seq!['"', ':', ' ', '"'] + esc(e.id) + seq!['"'] + t1;
    let wall = w + seq![' ', ' ', ' ', ' '];
    let head = seq!['{'] + pair1;
    reveal_strlit("    {\n      \"id\": \"");
    reveal_strlit("\",\n      \"name\": \"");
    reveal_strlit("\"\n    }");
    assert(("    {\n      \"id\": \""@).len() == 19);
    assert(("\",\n      \"name\": \""@).len() == 18);
    assert(("\"\n    }"@).len() == 7);
    assert(s =~= wall + head);
    assert(ws_only(wall));
    lemma_skip_ws_concat(wall, head);
    assert(head[0] == '{');
    assert(!is_ws('{'));
    assert(skip_ws(head) == head);
    let s0 = skip_ws(s);
    assert(s0 == head);
    assert(s0.len() > 0 && s0[0] == '{');
    assert(s0.drop_first() =~= pair1);
    assert(ws_only(w6));
    assert(no_esc(kid));
    assert(no_esc(knm));
    lemma_p_pair_ser(w6, kid, e.id, t1);
    assert(p_pair(pair1) == Some(((kid, e.id), t1)));
    assert(t1[0] == ',');
    assert(!is_ws(','));
    let s2 = skip_ws(t1);
    assert(s2 == t1);
    assert(s2.drop_first() =~= pair2);
    lemma_p_pair_ser(w6, knm, e.name, t2);
    assert(p_pair(pair2) == Some(((knm, e.name), t2)));
    let s4 = skip_ws(t2);
    lemma_skip_ws_concat(w4c, seq!['}'] + t);
    assert(ws_only(w4c));
    assert(t2 =~= w4c + (seq!['}'] + t));
    assert((seq!['}'] + t)[0] == '}');
    assert(!is_ws('}'));
    assert(s4 == seq!['}'] + t);
    assert(s4.drop_first() =~= t);
    assert(kid == key_id());
    assert(knm == key_name());
    assert(kid != key_name());
    assert(SubV { id: e.id, name: e.name } == e);
}

/// The tail of a serialized entry list: a separator before each entry.
spec fn ser_subs_rest(subs: Seq<SubV>) -> Seq<char>
    decreases subs.len(),
{
    if subs.len() == 0 {
        Seq::empty()
    } else {
        ",\n"@ + ser_sub(subs[0]) + ser_subs_rest(subs.drop_first())
    }
}

proof fn lemma_ser_subs_rest(s: Seq<SubV>)
    ensures
        s.len() > 0 ==> ser_subs_rest(s) == ",\n"@ + ser_subs(s),
    decreases s.len(),
{
    if s.len() > 0 {
        lemma_ser_subs_rest(s.drop_first());
        if s.len() == 1 {
            assert(s.drop_first().len() == 0);
            assert(ser_subs_rest(s.drop_first()) == Seq::<char>::empty());
            assert(ser_subs_rest(s) =~= ",\n"@ + ser_subs(s));
        } else {
            assert(ser_subs_rest(s) =~= ",\n"@ + ser_subs(s));
        }
    }
}

/// A non-empty entry list is its first entry followed by the tail.
proof fn lemma_ser_subs_decomp(s: Seq<SubV>)
    requires
        s.len() > 0,
    ensures
        ser_subs(s) == ser_sub(s[0]) + ser_subs_rest(s.drop_first()),
{
    lemma_ser_subs_rest(s.drop_first());
    if s.len() == 1 {
        assert(ser_subs(s) =~= ser_sub(s[0]) + ser_subs_rest(s.drop_first()));
    } else {
        assert(ser_subs(s) =~= ser_sub(s[0]) + ser_subs_rest(s.drop_first()));
    }
}

/// Parsing the rest of an array undoes serializing the remaining
/// entries.
#[verifier::rlimit(50)]
proof fn lemma_p_entries_rest_ser(subs: Seq<SubV>, acc: Seq<SubV>, t: Seq<char>)
    ensures
        p_entries_rest(ser_subs_rest(subs) + seq!['\n', ' ', ' '] + seq![']'] + t, acc) == Some(
            (acc + subs, t),
        ),
    decreases subs.len(),
{
    let closer = seq!['\n', ' ', ' '];
    let s = ser_subs_rest(subs) + closer + seq![']'] + t;
    if subs.len() == 0 {
        assert(s =~= closer + (seq![']'] + t));
        assert(ws_only(closer));
        lemma_skip_ws_concat(closer, seq![']'] + t);
        let s0 = skip_ws(s);
        assert((seq![']'] + t)[0] == ']');
        assert(!is_ws(']'));
        assert(s0 == seq![']'] + t);
        assert(s0.drop_first() =~= t);
        assert(acc + subs =~= acc);
    } else {
        let e = subs[0];
        let rest = subs.drop_first();
        let after = ser_subs_rest(rest) + closer + seq![']'] + t;
        assert(s =~= seq![','] + (seq!['\n'] + ser_sub(e) + after)) by {
            reveal_strlit(",\n");
            assert((",\n"@).len() == 2);
        }
        let s0 = skip_ws(s);
        assert(s[0] == ',');
        assert(!is_ws(','));
        assert(s0 == s);
        assert(s0.drop_first() =~= seq!['\n'] + ser_sub(e) + after);
        lemma_p_entry_ser(seq!['\n'], e, after);
        assert(p_entry(s0.drop_first()) == Some((e, after)));
        assert(s.len() == 2 + ser_sub(e).len() + after.len());
        assert(after.len() < s.len());
        lemma_p_entries_rest_ser(rest, acc.push(e), t);
        assert(acc.push(e) + rest =~= acc + subs);
    }
}

/// Parsing an array undoes serializing a non-empty entry list.
#[verifier::rlimit(50)]
proof fn lemma_p_array_ser(w: Seq<char>, subs: Seq<SubV>, t: Seq<char>)
    requires
        ws_only(w),
        subs.len() > 0,
    ensures
        p_array(
            w + seq!['['] + seq!['\n'] + ser_subs(subs) + seq!['\n', ' ', ' '] + seq![']'] + t,
        ) == Some((subs, t)),
{
    let closer = seq!['\n', ' ', ' '];
    let body = seq!['\n'] + ser_subs(subs) + closer + seq![']'] + t;
    let s = w + seq!['['] + body;
    assert(s =~= w + (seq!['['] + body));
    lemma_skip_ws_concat(w, seq!['['] + body);
    assert((seq!['['] + body)[0] == '[');
    assert(!is_ws('['));
    let s0 = skip_ws(s);
    assert(s0 == seq!['['] + body);
    assert(s0.drop_first() =~= body);
    lemma_ser_subs_decomp(subs);
    let after = ser_subs_rest(subs.drop_first()) + closer + seq![']'] + t;
    assert(body =~= seq!['\n'] + ser_sub(subs[0]) + after);
    lemma_p_entry_ser(seq!['\n'], subs[0], after);
    let s1 = skip_ws(body);
    assert(s1.len() > 0 && s1[0] == '{');
    assert(s1[0] != ']');
    assert(skip_ws(s1) == s1);
    assert(p_entry(s1) == p_entry(body));
    assert(p_entry(s1) == Some((subs[0], after)));
    assert(s.len() >= 2 + after.len());
    assert(after.len() < s.len());
    lemma_p_entries_rest_ser(subs.drop_first(), seq![subs[0]], t);
    assert(seq![subs[0]] + subs.drop_first() =~= subs);
    let full = w + seq!['['] + seq!['\n'] + ser_subs(subs) + seq!['\n', ' ', ' '] + seq![']'] + t;
    assert(full =~= s);
}

/// Parsing a member undoes serializing one, under any leading
/// whitespace; also pins the first significant character.
#[verifier::rlimit(100)]
#[verifier::spinoff_prover]
proof fn lemma_p_member_ser(w: Seq<char>, u: UserV, t: Seq<char>)
    requires
        ws_only(w),
        u.subs.len() > 0,
    ensures
        p_member(w + ser_user(u) + t) == Some((u, t)),
        skip_ws(w + ser_user(u) + t).len() > 0,
        skip_ws(w + ser_user(u) + t)[0] == '"',
{
    let s = w + ser_user(u) + t;
    let closer = seq!['\n', ' ', ' '];
    let arr = seq![' '] + seq!['['] + seq!['\n'] + ser_subs(u.subs) + closer + seq![']'] + t;
    let after_user = seq![':'] + arr;
    let head = seq!['"'] + esc(u.user) + seq!['"'] + after_user;
    let wall = w + seq![' ', ' '];
    assert(s =~= wall + head) by {
        reveal_strlit("  \"");
        reveal_strlit("\": [\n");
        reveal_strlit("\n  ]");
        assert(("  \""@).len() == 3);
        assert(("\": [\n"@).len() == 5);
        assert(("\n  ]"@).len() == 4);
    }
    assert(ws_only(wall));
    lemma_skip_ws_concat(wall, head);
    assert(head[0] == '"');
    assert(!is_ws('"'));
    let s0 = skip_ws(s);
    assert(s0 == head);
    assert(s0.len() > 0 && s0[0] == '"');
    assert(s0.drop_first() =~= esc(u.user) + seq!['"'] + after_user);
    lemma_p_str_ser(u.user, after_user);
    assert(p_str(s0.drop_first()) == Some((u.user, after_user)));
    assert(after_user[0] == ':');
    assert(!is_ws(':'));
    let s2 = skip_ws(after_user);
    assert(s2 == after_user);
    assert(s2.drop_first() =~= arr);
    lemma_p_array_ser(seq![' '], u.subs, t);
    assert(p_array(arr) == Some((u.subs, t)));
    assert(UserV { user: u.user, subs: u.subs } == u);
}

/// The tail of the serialized member list: a separator before each.
spec fn ser_users_rest(d: Seq<UserV>) -> Seq<char>
    decreases d.len(),
{
    if d.len() == 0 {
        Seq::empty()
    } else {
        ",\n"@ + ser_user(d[0]) + ser_users_rest(d.drop_first())
    }
}

proof fn lemma_ser_users_rest(d: Seq<UserV>)
    ensures
        d.len() > 0 ==> ser_users_rest(d) == ",\n"@ + ser_users(d),
    decreases d.len(),
{
    if d.len() > 0 {
        lemma_ser_users_rest(d.drop_first());
        if d.len() == 1 {
            assert(ser_users_rest(d.drop_first()) == Seq::<char>::empty());
            assert(ser_users_rest(d) =~= ",\n"@ + ser_users(d));
        } else {
            assert(ser_users_rest(d) =~= ",\n"@ + ser_users(d));
        }
    }
}

proof fn lemma_ser_users_decomp(d: Seq<UserV>)
    requires
        d.len() > 0,
    ensures
        ser_users(d) == ser_user(d[0]) + ser_users_rest(d.drop_first()),
{
    lemma_ser_users_rest(d.drop_first());
    if d.len() == 1 {
        assert(ser_users(d) =~= ser_user(d[0]) + ser_users_rest(d.drop_first()));
    } else {
        assert(ser_users(d) =~= ser_user(d[0]) + ser_users_rest(d.drop_first()));
    }
}

/// Parsing the rest of the object undoes serializing the remaining
/// members.
#[verifier::rlimit(100)]
proof fn lemma_p_members_rest_ser(d: Seq<UserV>, acc: Seq<UserV>, t: Seq<char>)
    requires
        forall|i: int| 0 <= i < d.len() ==> (#[trigger] d[i]).subs.len() > 0,
    ensures
        p_members_rest(ser_users_rest(d) + seq!['\n'] + seq!['}'] + t, acc) == Some((acc + d, t)),
    decreases d.len(),
{
    let s = ser_users_rest(d) + seq!['\n'] + seq!['}'] + t;
    if d.len() == 0 {
        assert(s =~= seq!['\n'] + (seq!['}'] + t));
        lemma_skip_ws_concat(seq!['\n'], seq!['}'] + t);
        let s0 = skip_ws(s);
        assert((seq!['}'] + t)[0] == '}');
        assert(!is_ws('}'));
        assert(s0 == seq!['}'] + t);
        assert(s0.drop_first() =~= t);
        assert(acc + d =~= acc);
    } else {
        let u = d[0];
        let rest = d.drop_first();
        let after = ser_users_rest(rest) + seq!['\n'] + seq!['}'] + t;
        assert(s =~= seq![','] + (seq!['\n'] + ser_user(u) + after)) by {
            reveal_strlit(",\n");
            assert((",\n"@).len() == 2);
        }
        let s0 = skip_ws(s);
        assert(s[0] == ',');
        assert(!is_ws(','));
        assert(s0 == s);
        assert(s0.drop_first() =~= seq!['\n'] + ser_user(u) + after);
        assert(u.subs.len() > 0);
        lemma_p_member_ser(seq!['\n'], u, after);
        assert(p_member(s0.drop_first()) == Some((u, after)));
        assert(s.len() == 2 + ser_user(u).len() + after.len());
        assert(after.len() < s.len());
        assert(forall|i: int| 0 <= i < rest.len() ==> (#[trigger] rest[i]).subs.len() > 0);
        lemma_p_members_rest_ser(rest, acc.push(u), t);
        assert(acc.push(u) + rest =~= acc + d);
    }
}

/// The round trip: loading what `save` wrote reproduces the document —
/// same members in the same order, each user's entries in the same
/// order.
#[verifier::rlimit(50)]
pub proof fn lemma_save_load_round_trip(d: Seq<UserV>)
    requires
        wf_doc(d),
    ensures
        parse_doc_spec(ser_doc(d)) == Some(d),
        load_spec(Some(ser_doc(d))) == Some(d),
{
    if d.len() == 0 {
        reveal_strlit("{}");
        let s = ser_doc(d);
        assert(s.len() == 2);
        assert(s[0] == '{');
        assert(s[1] == '}');
        assert(!is_ws('{'));
        assert(skip_ws(s) == s);
        assert(s.drop_first() =~= seq!['}']);
        let s1 = skip_ws(s.drop_first());
        assert(!is_ws('}'));
        assert(s1 == seq!['}']);
        assert(s1[0] == '}');
        assert(s1.drop_first() =~= Seq::<char>::empty());
        assert(skip_ws(s1.drop_first()).len() == 0);
        assert(p_doc(s) == Some(Seq::<UserV>::empty()));
        assert(Seq::<UserV>::empty() =~= d);
    } else {
        reveal_strlit("{\n");
        reveal_strlit("\n}");
        assert(("{\n"@).len() == 2);
        assert(("\n}"@).len() == 2);
        let s = ser_doc(d);
        lemma_ser_users_decomp(d);
        let after = ser_users_rest(d.drop_first()) + seq!['\n'] + seq!['}'] + Seq::<char>::empty();
        let body = seq!['\n'] + ser_user(d[0]) + after;
        assert(s =~= seq!['{'] + body);
        assert(!is_ws('{'));
        let s0 = skip_ws(s);
        assert(s0 == seq!['{'] + body);
        assert(s0.drop_first() =~= body);
        assert(d[0].subs.len() > 0) by {
            assert(wf_subs(d[0].subs));
        }
        lemma_p_member_ser(seq!['\n'], d[0], after);
        let s1 = skip_ws(body);
        assert(s1.len() > 0 && s1[0] == '"');
        assert(s1[0] != '}');
        assert(skip_ws(s1) == s1);
        assert(p_member(s1) == p_member(body));
        assert(p_member(s1) == Some((d[0], after)));
        assert(forall|i: int|
            0 <= i < d.drop_first().len() ==> (#[trigger] d.drop_first()[i]).subs.len() > 0) by {
            assert(forall|i: int|
                0 <= i < d.drop_first().len() ==> d.drop_first()[i] == d[i + 1] && wf_subs(
                    #[trigger] d.drop_first()[i].subs,
                ));
        }
        lemma_p_members_rest_ser(d.drop_first(), seq![d[0]], Seq::<char>::empty());
        assert(p_members_rest(after, seq![d[0]]) == Some(
            (seq![d[0]] + d.drop_first(), Seq::<char>::empty()),
        ));
        assert(seq![d[0]] + d.drop_first() =~= d);
        assert(skip_ws(Seq::<char>::empty()).len() == 0);
        assert(p_doc(s) == Some(d));
    }
}

/// Load the document from the file's content; a missing file (`None`)
/// is an empty document, anything unparsable is corrupt (`None` result).
pub fn load(content: Option<&str>) -> (r: Option<Document>)
    ensures
        match r {
            Some(d) => load_spec(content_view(content)) == Some(d@) && wf_doc(d@),
            None => load_spec(content_view(content)) is None,
        },
{
    match content {
        None => {
            let d = Document { users: Vec::new() };
            proof {
                assert(d@ =~= Seq::<UserV>::empty());
            }
            Some(d)
        },
        Some(s) => parse(s),
    }
}

} // verus!
