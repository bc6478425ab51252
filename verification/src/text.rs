//! Character-level helpers: JSON Pointer escaping and decoding, decimal
//! rendering and ASCII classification.
use vstd::prelude::*;

verus! {

/// Appends one character; `String::push` of std.  The contract claims what its
/// documentation says: the character is added at the end of the string.
#[verifier::external_body]
pub(crate) fn push_char(s: &mut String, c: char)
    ensures
        final(s)@ == old(s)@.push(c),
{
    s.push(c);
}

/// Appends the characters of `t` to `s`.
pub fn push_str(s: &mut String, t: &str)
    ensures
        final(s)@ == old(s)@ + t@,
{
    let ghost start = s@;
    for c in it: t.chars()
        invariant
            it.seq() == t@,
            s@ == start + t@.take(it.index()),
    {
        push_char(s, c);
        assert(s@ =~= start + t@.take(it.index() + 1));
    }
    assert(t@.take(t@.len() as int) =~= t@);
}

/// A fresh string holding the characters of `t`.
pub fn string_of(t: &str) -> (r: String)
    ensures
        r@ == t@,
{
    let mut r = String::new();
    push_str(&mut r, t);
    r
}

/// Whether two string slices hold the same characters.
pub fn str_eq(a: &str, b: &str) -> (r: bool)
    ensures
        r == (a@ == b@),
{
    string_of(a) == string_of(b)
}

/// Whether `s` holds the character `c`.
pub fn contains_char(s: &str, c: char) -> (r: bool)
    ensures
        r == s@.contains(c),
{
    for d in it: s.chars()
        invariant
            it.seq() == s@,
            forall|j: int| 0 <= j < it.index() ==> s@[j] != c,
    {
        if d == c {
            assert(s@[it.index()] == c);
            return true;
        }
    }
    false
}

/// `path` followed by a slash and `segment`.
pub fn join_path(path: &str, segment: &str) -> (r: String)
    ensures
        r@ == path@ + seq!['/'] + segment@,
{
    let mut r = string_of(path);
    push_char(&mut r, '/');
    push_str(&mut r, segment);
    r
}

pub open spec fn escape_char(c: char) -> Seq<char> {
    if c == '~' {
        seq!['~', '0']
    } else if c == '/' {
        seq!['~', '1']
    } else {
        seq![c]
    }
}

/// A reference token as RFC 6901 writes it: `~` becomes `~0`, `/` becomes `~1`.
pub open spec fn escape_seq(s: Seq<char>) -> Seq<char>
    decreases s.len(),
{
    if s.len() == 0 {
        Seq::empty()
    } else {
        escape_seq(s.drop_last()) + escape_char(s.last())
    }
}

/// Escapes one JSON Pointer reference token.
pub fn escape_ptr(s: &str) -> (r: String)
    ensures
        r@ == escape_seq(s@),
{
    let mut out = String::new();
    for c in it: s.chars()
        invariant
            it.seq() == s@,
            out@ == escape_seq(s@.take(it.index())),
    {
        proof {
            assert(s@.take(it.index() + 1).drop_last() =~= s@.take(it.index()));
        }
        if c == '~' {
            push_char(&mut out, '~');
            push_char(&mut out, '0');
        } else if c == '/' {
            push_char(&mut out, '~');
            push_char(&mut out, '1');
        } else {
            push_char(&mut out, c);
        }
        assert(out@ =~= escape_seq(s@.take(it.index() + 1)));
    }
    assert(s@.take(s@.len() as int) =~= s@);
    out
}

/// `path` followed by a slash and the escaped `key`.
pub fn join_key(path: &str, key: &str) -> (r: String)
    ensures
        r@ == path@ + seq!['/'] + escape_seq(key@),
{
    let k = escape_ptr(key);
    join_path(path, k.as_str())
}

/// Prepends `c` to the first segment of `segs`.
pub open spec fn prepend_first(c: char, segs: Seq<Seq<char>>) -> Seq<Seq<char>> {
    seq![seq![c] + segs[0]] + segs.drop_first()
}

/// The reference tokens of the text after a pointer's leading slash: split at
/// `/`, with `~0` read as `~` and `~1` read as `/`; any other use of `~` makes
/// the pointer invalid.
pub open spec fn decode_tokens(s: Seq<char>) -> Option<Seq<Seq<char>>>
    decreases s.len(),
{
    if s.len() == 0 {
        Some(seq![Seq::<char>::empty()])
    } else if s[0] == '/' {
        match decode_tokens(s.drop_first()) {
            Some(segs) => Some(seq![Seq::<char>::empty()] + segs),
            None => None,
        }
    } else if s[0] == '~' {
        if s.len() >= 2 && (s[1] == '0' || s[1] == '1') {
            match decode_tokens(s.skip(2)) {
                Some(segs) => Some(prepend_first(if s[1] == '0' { '~' } else { '/' }, segs)),
                None => None,
            }
        } else {
            None
        }
    } else {
        match decode_tokens(s.drop_first()) {
            Some(segs) => Some(prepend_first(s[0], segs)),
            None => None,
        }
    }
}

proof fn lemma_decode_tokens_nonempty(s: Seq<char>)
    ensures
        decode_tokens(s) matches Some(segs) ==> segs.len() >= 1,
    decreases s.len(),
{
    if s.len() == 0 {
    } else if s[0] == '/' {
        lemma_decode_tokens_nonempty(s.drop_first());
    } else if s[0] == '~' {
        if s.len() >= 2 && (s[1] == '0' || s[1] == '1') {
            lemma_decode_tokens_nonempty(s.skip(2));
        }
    } else {
        lemma_decode_tokens_nonempty(s.drop_first());
    }
}

/// The reference tokens of a JSON Pointer (RFC 6901): the empty pointer has
/// none; any other pointer must start with `/`.
pub open spec fn decode_pointer(p: Seq<char>) -> Option<Seq<Seq<char>>> {
    if p.len() == 0 {
        Some(Seq::empty())
    } else if p[0] != '/' {
        None
    } else {
        decode_tokens(p.drop_first())
    }
}

/// Escaping a token character by character from the front.
proof fn lemma_escape_front(c: char, t: Seq<char>)
    ensures
        escape_seq(seq![c] + t) == escape_char(c) + escape_seq(t),
    decreases t.len(),
{
    let u = seq![c] + t;
    if t.len() == 0 {
        assert(u =~= seq![c]);
        assert(u.drop_last() =~= Seq::<char>::empty());
        assert(escape_seq(u) == escape_seq(u.drop_last()) + escape_char(u.last()));
        assert(escape_seq(u) =~= escape_char(c));
        assert(escape_char(c) + escape_seq(t) =~= escape_char(c));
    } else {
        assert(u.drop_last() =~= seq![c] + t.drop_last());
        assert(u.last() == t.last());
        lemma_escape_front(c, t.drop_last());
        assert(escape_seq(u) == escape_seq(u.drop_last()) + escape_char(u.last()));
        assert(escape_seq(t) == escape_seq(t.drop_last()) + escape_char(t.last()));
        assert(escape_seq(u) =~= escape_char(c) + escape_seq(t));
    }
}

/// An escaped token in front of text `s` decodes as the token glued to the
/// first segment of `s`.
proof fn lemma_decode_escaped(t: Seq<char>, s: Seq<char>)
    requires
        decode_tokens(s) is Some,
    ensures
        decode_tokens(escape_seq(t) + s) == decode_join(Seq::empty(), t, decode_tokens(s)),
    decreases t.len(),
{
    lemma_decode_tokens_nonempty(s);
    let segs = decode_tokens(s)->0;
    if t.len() == 0 {
        assert(escape_seq(t) + s =~= s);
        assert(Seq::<Seq<char>>::empty() + seq![t + segs[0]] + segs.drop_first() =~= segs);
    } else {
        let c = t[0];
        let rest = t.drop_first();
        assert(seq![c] + rest =~= t);
        lemma_escape_front(c, rest);
        lemma_decode_escaped(rest, s);
        let whole = escape_seq(t) + s;
        let inner = escape_seq(rest) + s;
        let tail = seq![rest + segs[0]] + segs.drop_first();
        assert(decode_tokens(inner) == Some(tail)) by {
            assert(Seq::<Seq<char>>::empty() + seq![rest + segs[0]] + segs.drop_first() =~= tail);
        }
        assert(prepend_first(c, tail) =~= seq![t + segs[0]] + segs.drop_first()) by {
            assert(seq![c] + (rest + segs[0]) =~= t + segs[0]);
        }
        assert(Seq::<Seq<char>>::empty() + seq![t + segs[0]] + segs.drop_first() =~= seq![t + segs[0]] + segs.drop_first());
        if c == '~' || c == '/' {
            assert(whole =~= seq!['~', if c == '~' { '0' } else { '1' }] + inner);
            assert(whole.skip(2) =~= inner);
        } else {
            assert(whole =~= seq![c] + inner);
            assert(whole.drop_first() =~= inner);
        }
    }
}

/// Decoding text made of two parts glues the last segment of the first part
/// to the first segment of the second.
proof fn lemma_decode_concat(q: Seq<char>, y: Seq<char>)
    requires
        decode_tokens(q) is Some,
        decode_tokens(y) is Some,
    ensures
        decode_tokens(q + y) == decode_join(decode_tokens(q)->0.drop_last(), decode_tokens(q)->0.last(), decode_tokens(y)),
    decreases q.len(),
{
    lemma_decode_tokens_nonempty(q);
    lemma_decode_tokens_nonempty(y);
    let a = decode_tokens(q)->0;
    let b = decode_tokens(y)->0;
    let joined = a.drop_last() + seq![a.last() + b[0]] + b.drop_first();
    if q.len() == 0 {
        assert(q + y =~= y);
        assert(joined =~= b);
    } else if q[0] == '/' {
        let q2 = q.drop_first();
        lemma_decode_concat(q2, y);
        lemma_decode_tokens_nonempty(q2);
        let a2 = decode_tokens(q2)->0;
        assert((q + y).drop_first() =~= q2 + y);
        assert(a =~= seq![Seq::<char>::empty()] + a2);
        assert(seq![Seq::<char>::empty()] + (a2.drop_last() + seq![a2.last() + b[0]] + b.drop_first()) =~= joined);
    } else {
        let k: int = if q[0] == '~' { 2 } else { 1 };
        let q2 = q.skip(k);
        let ch = if q[0] == '~' { if q[1] == '0' { '~' } else { '/' } } else { q[0] };
        lemma_decode_concat(q2, y);
        lemma_decode_tokens_nonempty(q2);
        let a2 = decode_tokens(q2)->0;
        assert((q + y).skip(k) =~= q2 + y);
        if q[0] != '~' {
            assert(q.drop_first() =~= q2);
            assert((q + y).drop_first() =~= q2 + y);
        }
        assert(a == prepend_first(ch, a2));
        let inner = a2.drop_last() + seq![a2.last() + b[0]] + b.drop_first();
        if a2.len() == 1 {
            assert(prepend_first(ch, inner) =~= joined) by {
                assert(seq![ch] + (a2[0] + b[0]) =~= (seq![ch] + a2[0]) + b[0]);
            }
        } else {
            assert(prepend_first(ch, inner) =~= joined);
        }
    }
}

/// Law: a pointer extended by a slash and an escaped key (what `join_key`
/// writes) decodes to the tokens of the pointer followed by the key itself.
pub proof fn law_pointer_extension(p: Seq<char>, key: Seq<char>)
    requires
        decode_pointer(p) is Some,
    ensures
        decode_pointer(p + seq!['/'] + escape_seq(key)) == Some(decode_pointer(p)->0.push(key)),
{
    let e = escape_seq(key);
    let empty = Seq::<char>::empty();
    assert(decode_tokens(empty) == Some(seq![empty]));
    lemma_decode_escaped(key, empty);
    assert(e + empty =~= e);
    assert(decode_tokens(e) == Some(seq![key])) by {
        assert(Seq::<Seq<char>>::empty() + seq![key + seq![empty][0]] + seq![empty].drop_first() =~= seq![key]);
        assert(key + empty =~= key);
    }
    let w = p + seq!['/'] + e;
    assert(w[0] == '/') by {
        if p.len() > 0 {
            assert(w[0] == p[0]);
        }
    }
    if p.len() == 0 {
        assert(w.drop_first() =~= e);
        assert(Seq::<Seq<char>>::empty().push(key) =~= seq![key]);
    } else {
        let q = p.drop_first();
        let y = seq!['/'] + e;
        assert(y.drop_first() =~= e);
        assert(decode_tokens(y) == Some(seq![empty] + seq![key]));
        lemma_decode_concat(q, y);
        lemma_decode_tokens_nonempty(q);
        assert(w.drop_first() =~= q + y);
        let a = decode_tokens(q)->0;
        let b = seq![empty] + seq![key];
        assert(a.drop_last() + seq![a.last() + b[0]] + b.drop_first() =~= a.push(key)) by {
            assert(a.last() + empty =~= a.last());
        }
    }
}

/// The JSON Pointer that names the tokens `ts`: each token escaped and
/// preceded by a slash.
pub open spec fn encode_pointer(ts: Seq<Seq<char>>) -> Seq<char>
    decreases ts.len(),
{
    if ts.len() == 0 {
        Seq::empty()
    } else {
        encode_pointer(ts.drop_last()) + seq!['/'] + escape_seq(ts.last())
    }
}

/// Law: every sequence of tokens, written as a pointer, decodes back to
/// itself.
pub proof fn law_pointer_round_trip(ts: Seq<Seq<char>>)
    ensures
        decode_pointer(encode_pointer(ts)) == Some(ts),
    decreases ts.len(),
{
    if ts.len() > 0 {
        law_pointer_round_trip(ts.drop_last());
        law_pointer_extension(encode_pointer(ts.drop_last()), ts.last());
        assert(ts.drop_last().push(ts.last()) =~= ts);
    }
}

pub open spec fn string_views(v: Seq<String>) -> Seq<Seq<char>> {
    v.map_values(|s: String| s@)
}

/// What the first `done` segments, the open segment `cur` and the decoding of
/// the rest amount to.
pub open spec fn decode_join(done: Seq<Seq<char>>, cur: Seq<char>, rest: Option<Seq<Seq<char>>>) -> Option<Seq<Seq<char>>> {
    match rest {
        Some(segs) => Some(done + seq![cur + segs[0]] + segs.drop_first()),
        None => None,
    }
}

/// The characters of a string slice, in order.
pub fn chars_of(s: &str) -> (r: Vec<char>)
    ensures
        r@ == s@,
{
    let mut r: Vec<char> = Vec::new();
    for c in it: s.chars()
        invariant
            it.seq() == s@,
            r@ == s@.take(it.index()),
    {
        r.push(c);
        assert(r@ =~= s@.take(it.index() + 1));
    }
    assert(s@.take(s@.len() as int) =~= s@);
    r
}

/// Decodes a JSON Pointer into its reference tokens; `None` where it is not a
/// valid pointer.
pub fn decode_ptr(pointer: &str) -> (r: Option<Vec<String>>)
    ensures
        match r {
            Some(v) => decode_pointer(pointer@) == Some(string_views(v@)),
            None => decode_pointer(pointer@) is None,
        },
{
    let p = chars_of(pointer);
    if p.len() == 0 {
        let v: Vec<String> = Vec::new();
        assert(string_views(v@) =~= Seq::<Seq<char>>::empty());
        return Some(v);
    }
    if p[0] != '/' {
        return None;
    }
    let ghost s = p@.drop_first();
    let mut done: Vec<String> = Vec::new();
    let mut cur = String::new();
    let mut i: usize = 1;
    proof {
        assert(p@.skip(1) =~= s);
        assert(decode_join(Seq::empty(), Seq::empty(), decode_tokens(s)) == decode_tokens(s)) by {
            lemma_decode_tokens_nonempty(s);
            if let Some(segs) = decode_tokens(s) {
                assert(Seq::<Seq<char>>::empty() + seq![Seq::<char>::empty() + segs[0]] + segs.drop_first() =~= segs);
            }
        }
    }
    while i < p.len()
        invariant
            1 <= i <= p@.len(),
            p@ == pointer@,
            p@[0] == '/',
            s == p@.drop_first(),
            decode_tokens(s) == decode_join(string_views(done@), cur@, decode_tokens(p@.skip(i as int))),
        decreases p@.len() - i,
    {
        let ghost rest = p@.skip(i as int);
        let c = p[i];
        assert(rest[0] == c);
        if c == '/' {
            proof {
                assert(rest.drop_first() =~= p@.skip(i + 1));
                lemma_decode_tokens_nonempty(rest.drop_first());
            }
            let ghost old_done = done@;
            let ghost old_cur = cur@;
            done.push(cur);
            cur = String::new();
            i = i + 1;
            proof {
                assert(string_views(done@) =~= string_views(old_done) + seq![old_cur]);
                if let Some(segs) = decode_tokens(p@.skip(i as int)) {
                    let full = seq![Seq::<char>::empty()] + segs;
                    assert(full[0] =~= Seq::<char>::empty());
                    assert(old_cur + full[0] =~= old_cur);
                    assert(full.drop_first() =~= segs);
                    assert(string_views(old_done) + seq![old_cur + full[0]] + full.drop_first()
                        =~= string_views(done@) + seq![cur@ + segs[0]] + segs.drop_first());
                }
            }
        } else if c == '~' {
            if i + 1 >= p.len() {
                assert(decode_tokens(rest) is None);
                return None;
            }
            let d = p[i + 1];
            assert(rest[1] == d);
            if d == '0' || d == '1' {
                let e = if d == '0' { '~' } else { '/' };
                proof {
                    assert(rest.skip(2) =~= p@.skip(i + 2));
                    lemma_decode_tokens_nonempty(rest.skip(2));
                }
                let ghost old_cur = cur@;
                push_char(&mut cur, e);
                i = i + 2;
                proof {
                    if let Some(segs) = decode_tokens(p@.skip(i as int)) {
                        let full = prepend_first(e, segs);
                        assert(old_cur + full[0] =~= cur@ + segs[0]);
                        assert(full.drop_first() =~= segs.drop_first());
                    }
                }
            } else {
                assert(decode_tokens(rest) is None);
                return None;
            }
        } else {
            proof {
                assert(rest.drop_first() =~= p@.skip(i + 1));
                lemma_decode_tokens_nonempty(rest.drop_first());
            }
            let ghost old_cur = cur@;
            push_char(&mut cur, c);
            i = i + 1;
            proof {
                if let Some(segs) = decode_tokens(p@.skip(i as int)) {
                    let full = prepend_first(c, segs);
                    assert(old_cur + full[0] =~= cur@ + segs[0]);
                    assert(full.drop_first() =~= segs.drop_first());
                }
            }
        }
    }
    proof {
        assert(p@.skip(i as int) =~= Seq::<char>::empty());
    }
    let ghost old_done = done@;
    let ghost old_cur = cur@;
    done.push(cur);
    proof {
        let segs = seq![Seq::<char>::empty()];
        assert(old_cur + segs[0] =~= old_cur);
        assert(string_views(done@) =~= string_views(old_done) + seq![old_cur + segs[0]] + segs.drop_first());
    }
    Some(done)
}

pub open spec fn digit_char(d: int) -> char {
    if d == 0 { '0' }
    else if d == 1 { '1' }
    else if d == 2 { '2' }
    else if d == 3 { '3' }
    else if d == 4 { '4' }
    else if d == 5 { '5' }
    else if d == 6 { '6' }
    else if d == 7 { '7' }
    else if d == 8 { '8' }
    else { '9' }
}

/// Decimal digits of `n`, most significant first, without leading zeros.
pub open spec fn decimal(n: nat) -> Seq<char>
    decreases n,
{
    if n < 10 {
        seq![digit_char(n as int)]
    } else {
        decimal(n / 10).push(digit_char((n % 10) as int))
    }
}

fn digit(d: u64) -> (c: char)
    requires
        d < 10,
    ensures
        c == digit_char(d as int),
{
    match d {
        0 => '0',
        1 => '1',
        2 => '2',
        3 => '3',
        4 => '4',
        5 => '5',
        6 => '6',
        7 => '7',
        8 => '8',
        _ => '9',
    }
}

fn push_decimal(s: &mut String, n: u64)
    ensures
        final(s)@ == old(s)@ + decimal(n as nat),
    decreases n,
{
    if n < 10 {
        push_char(s, digit(n));
        assert(final(s)@ =~= old(s)@ + decimal(n as nat));
    } else {
        push_decimal(s, n / 10);
        push_char(s, digit(n % 10));
        assert(final(s)@ =~= old(s)@ + decimal(n as nat));
    }
}

/// The decimal rendering of an unsigned integer.
pub fn u64_to_decimal(n: u64) -> (r: String)
    ensures
        r@ == decimal(n as nat),
{
    let mut s = String::new();
    push_decimal(&mut s, n);
    assert(s@ =~= decimal(n as nat));
    s
}

/// The decimal rendering of a signed integer, with a leading `-` when negative.
pub open spec fn signed_decimal(n: int) -> Seq<char> {
    if n < 0 {
        seq!['-'] + decimal((-n) as nat)
    } else {
        decimal(n as nat)
    }
}

pub fn i64_to_decimal(n: i64) -> (r: String)
    ensures
        r@ == signed_decimal(n as int),
{
    let mut s = String::new();
    if n < 0 {
        push_char(&mut s, '-');
        let m: u64 = if n == i64::MIN { 9223372036854775808u64 } else { (-n) as u64 };
        push_decimal(&mut s, m);
    } else {
        push_decimal(&mut s, n as u64);
    }
    assert(s@ =~= signed_decimal(n as int));
    s
}

/// `path` followed by a slash and the decimal index `i`.
pub fn join_index(path: &str, i: usize) -> (r: String)
    ensures
        r@ == path@ + seq!['/'] + decimal(i as nat),
{
    let d = u64_to_decimal(i as u64);
    join_path(path, d.as_str())
}

/// The byte length of the UTF-8 encoding of `s`, as `str::len` reports it.
pub open spec fn utf8_len(s: Seq<char>) -> usize {
    vstd::utf8::encode_utf8(s).len() as usize
}

pub open spec fn is_ascii_alpha(c: char) -> bool {
    ('a' <= c && c <= 'z') || ('A' <= c && c <= 'Z')
}

pub open spec fn is_ascii_digit(c: char) -> bool {
    '0' <= c && c <= '9'
}

pub open spec fn is_ascii_alnum(c: char) -> bool {
    is_ascii_alpha(c) || is_ascii_digit(c)
}

} // verus!
