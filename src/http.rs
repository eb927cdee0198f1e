use crate::error::Error;
use crate::ids::{uuid_parse_of, trial_id_of_text, StudyId, StudyName, TrialId};
use crate::subscriber::SubscribeId;
use vstd::prelude::*;
use vstd::utf8::{decode_utf8, encode_utf8, valid_utf8};

verus! {

/// Relies on String::push: appends one character.
#[verifier::external_body]
fn push_char(s: &mut String, c: char)
    ensures
        final(s)@ == old(s)@.push(c),
{
    s.push(c)
}

/// Relies on String::from_utf8: the text that bytes encode, exactly when they
/// are valid UTF-8.
#[verifier::external_body]
fn string_from_utf8(b: Vec<u8>) -> (r: Option<String>)
    ensures
        r is Some <==> valid_utf8(b@),
        r is Some ==> r->0@ == decode_utf8(b@),
{
    String::from_utf8(b).ok()
}

/// The value of an ASCII hexadecimal digit, either case.
pub open spec fn hex_value(c: u8) -> Option<u32> {
    if 0x30 <= c && c <= 0x39 {
        Some((c - 0x30) as u32)
    } else if 0x61 <= c && c <= 0x66 {
        Some((c - 0x61 + 10) as u32)
    } else if 0x41 <= c && c <= 0x46 {
        Some((c - 0x41 + 10) as u32)
    } else {
        None
    }
}

fn hex_digit(c: u8) -> (r: Option<u32>)
    ensures
        r == hex_value(c),
{
    if 0x30 <= c && c <= 0x39 {
        Some((c - 0x30) as u32)
    } else if 0x61 <= c && c <= 0x66 {
        Some((c - 0x61 + 10) as u32)
    } else if 0x41 <= c && c <= 0x46 {
        Some((c - 0x41 + 10) as u32)
    } else {
        None
    }
}

/// The value of the two hexadecimal digits after a '%'.
pub open spec fn escape_value(a: u8, b: u8) -> Option<u32> {
    match (hex_value(a), hex_value(b)) {
        (Some(x), Some(y)) => Some((x * 16 + y) as u32),
        _ => None,
    }
}

/// The bytes that `s` denotes with each `%XY` escape replaced by the byte
/// `XY`; none when an escape is cut short or malformed.
pub open spec fn unescaped(s: Seq<u8>) -> Option<Seq<u8>>
    decreases s.len(),
{
    if s.len() == 0 {
        Some(Seq::empty())
    } else if s[0] == 0x25 {
        if s.len() < 3 {
            None
        } else {
            match escape_value(s[1], s[2]) {
                None => None,
                Some(v) => match unescaped(s.subrange(3, s.len() as int)) {
                    Some(r) => Some(seq![v as u8] + r),
                    None => None,
                },
            }
        }
    } else {
        match unescaped(s.subrange(1, s.len() as int)) {
            Some(r) => Some(seq![s[0]] + r),
            None => None,
        }
    }
}

/// The text that the percent-encoded `s` denotes: its UTF-8 bytes with the
/// escapes replaced, read as UTF-8; none when an escape is malformed or the
/// bytes are not valid UTF-8.
pub open spec fn decoded(s: Seq<char>) -> Option<Seq<char>> {
    match unescaped(encode_utf8(s)) {
        Some(b) => if valid_utf8(b) {
            Some(decode_utf8(b))
        } else {
            None
        },
        None => None,
    }
}

/// Decodes the percent escapes of a path component; `Other` when an escape is
/// cut short or malformed, or the result is not UTF-8.
pub fn percent_decode(s: &str) -> (r: Result<String, Error>)
    ensures
        match decoded(s@) {
            Some(d) => r is Ok && r->Ok_0@ == d,
            None => r is Err && r->Err_0.kind == crate::error::ErrorKind::Other,
        },
{
    let bytes = s.as_bytes();
    let ghost whole = bytes@;
    assert(whole == encode_utf8(s@));
    let n = bytes.len();
    let mut out: Vec<u8> = Vec::new();
    let mut i: usize = 0;
    assert(whole.subrange(0, n as int) =~= whole);
    proof {
        match unescaped(whole) {
            Some(d) => {
                assert(out@ + d =~= d);
            },
            None => {},
        }
    }
    while i < n
        invariant
            n == whole.len(),
            bytes@ == whole,
            whole == encode_utf8(s@),
            i <= n,
            unescaped(whole) == (match unescaped(whole.subrange(i as int, n as int)) {
                Some(rest) => Some(out@ + rest),
                None => None,
            }),
        decreases n - i,
    {
        let ghost t = whole.subrange(i as int, n as int);
        let c = bytes[i];
        assert(t[0] == c);
        if c == 0x25 {
            if n - i < 3 {
                assert(unescaped(t) is None);
                return Err(Error::new(String::new()));
            }
            let a = bytes[i + 1];
            let b = bytes[i + 2];
            assert(t[1] == a && t[2] == b);
            let v = match (hex_digit(a), hex_digit(b)) {
                (Some(x), Some(y)) => Some(x * 16 + y),
                _ => None,
            };
            match v {
                None => {
                    assert(unescaped(t) is None);
                    return Err(Error::new(String::new()));
                },
                Some(v) => {
                    assert(v < 256);
                    let ghost before = out@;
                    out.push(v as u8);
                    assert(t.subrange(3, t.len() as int) =~= whole.subrange(i + 3, n as int));
                    proof {
                        match unescaped(whole.subrange(i + 3, n as int)) {
                            Some(rest) => {
                                assert(before + (seq![v as u8] + rest) =~= out@ + rest);
                            },
                            None => {},
                        }
                    }
                    i = i + 3;
                },
            }
        } else {
            let ghost before = out@;
            out.push(c);
            assert(t.subrange(1, t.len() as int) =~= whole.subrange(i + 1, n as int));
            proof {
                match unescaped(whole.subrange(i + 1, n as int)) {
                    Some(rest) => {
                        assert(before + (seq![c] + rest) =~= out@ + rest);
                    },
                    None => {},
                }
            }
            i = i + 1;
        }
    }
    assert(whole.subrange(i as int, n as int) =~= Seq::<u8>::empty());
    assert(out@ + Seq::<u8>::empty() =~= out@);
    match string_from_utf8(out) {
        Some(text) => Ok(text),
        None => Err(Error::new(String::new())),
    }
}

/// The segments of `s` between '/' characters.
pub open spec fn split_slash(s: Seq<char>) -> Seq<Seq<char>>
    decreases s.len(),
{
    if s.len() == 0 {
        seq![Seq::empty()]
    } else if s.last() == '/' {
        split_slash(s.drop_last()).push(Seq::empty())
    } else {
        let p = split_slash(s.drop_last());
        p.update(p.len() - 1, p.last().push(s.last()))
    }
}

proof fn lemma_split_slash_len(s: Seq<char>)
    ensures
        split_slash(s).len() >= 1,
    decreases s.len(),
{
    if s.len() > 0 {
        lemma_split_slash_len(s.drop_last());
    }
}

/// The segments of a URL path ("/a/b" has "a" and "b"); none for a path that
/// does not start with '/'.
pub open spec fn path_segments(path: Seq<char>) -> Option<Seq<Seq<char>>> {
    if path.len() > 0 && path[0] == '/' {
        Some(split_slash(path.subrange(1, path.len() as int)))
    } else {
        None
    }
}

/// Segment `k` of a path, if it has one.
pub open spec fn segment(path: Seq<char>, k: int) -> Option<Seq<char>> {
    match path_segments(path) {
        Some(segs) => if 0 <= k < segs.len() {
            Some(segs[k])
        } else {
            None
        },
        None => None,
    }
}

/// Segment `k` of `path`; `Other` when there is none.
pub fn path_segment(path: &str, k: usize) -> (r: Result<String, Error>)
    ensures
        match segment(path@, k as int) {
            Some(seg) => r is Ok && r->Ok_0@ == seg,
            None => r is Err && r->Err_0.kind == crate::error::ErrorKind::Other,
        },
{
    let n = path.unicode_len();
    if n == 0 || path.get_char(0) != '/' {
        return Err(Error::other());
    }
    let ghost body = path@.subrange(1, n as int);
    let mut segs: Vec<String> = Vec::new();
    segs.push(String::new());
    let mut i: usize = 1;
    while i < n
        invariant
            n == path@.len(),
            1 <= i <= n,
            body == path@.subrange(1, n as int),
            segs@.len() == split_slash(body.subrange(0, i - 1)).len(),
            segs@.len() >= 1,
            forall|j: int| 0 <= j < segs@.len() ==> (#[trigger] segs@[j])@ == split_slash(body.subrange(0, i - 1))[j],
        decreases n - i,
    {
        let c = path.get_char(i);
        let ghost pre = body.subrange(0, i - 1);
        let ghost cur = body.subrange(0, i as int);
        assert(cur.drop_last() =~= pre);
        assert(cur.last() == c);
        if c == '/' {
            segs.push(String::new());
        } else {
            let last = segs.len() - 1;
            let mut seg = segs.remove(last);
            push_char(&mut seg, c);
            segs.push(seg);
            proof {
                lemma_split_slash_len(pre);
            }
            assert forall|j: int| 0 <= j < segs@.len() implies (#[trigger] segs@[j])@ == split_slash(cur)[j] by {}
        }
        i = i + 1;
    }
    assert(body.subrange(0, n - 1) =~= body);
    if k < segs.len() {
        let s = segs.remove(k);
        Ok(s)
    } else {
        Err(Error::other())
    }
}

/// The value of a decimal number as `u32`'s `FromStr` reads it: digits, with
/// an optional leading '+', that fit in 32 bits.
pub open spec fn decimal_value(s: Seq<char>) -> Option<u32> {
    let d = unsigned_part(s);
    if d.len() > 0 && all_digits(d) && digits_value(d) <= u32::MAX {
        Some(digits_value(d) as u32)
    } else {
        None
    }
}

/// The text after an optional leading '+'.
pub open spec fn unsigned_part(s: Seq<char>) -> Seq<char> {
    if s.len() > 0 && s[0] == '+' {
        s.subrange(1, s.len() as int)
    } else {
        s
    }
}

pub open spec fn all_digits(d: Seq<char>) -> bool {
    forall|i: int| 0 <= i < d.len() ==> '0' <= #[trigger] d[i] <= '9'
}

pub open spec fn digits_value(d: Seq<char>) -> nat
    decreases d.len(),
{
    if d.len() == 0 {
        0
    } else {
        digits_value(d.drop_last()) * 10 + (d.last() as u32 - '0' as u32) as nat
    }
}

proof fn lemma_digits_monotone(d: Seq<char>, i: int)
    requires
        0 <= i <= d.len(),
        forall|j: int| 0 <= j < d.len() ==> '0' <= #[trigger] d[j] <= '9',
    ensures
        digits_value(d.subrange(0, i)) <= digits_value(d),
    decreases d.len() - i,
{
    if i < d.len() {
        lemma_digits_monotone(d, i + 1);
        assert(d.subrange(0, i + 1).drop_last() =~= d.subrange(0, i));
    } else {
        assert(d.subrange(0, i) =~= d);
    }
}

/// Reads a `u32` in decimal; `Other` when it is not one.
pub fn parse_u32(s: &str) -> (r: Result<u32, Error>)
    ensures
        match decimal_value(s@) {
            Some(v) => r is Ok && r->Ok_0 == v,
            None => r is Err && r->Err_0.kind == crate::error::ErrorKind::Other,
        },
{
    let n = s.unicode_len();
    let start: usize = if n > 0 && s.get_char(0) == '+' { 1 } else { 0 };
    let ghost d = s@.subrange(start as int, n as int);
    assert(d =~= unsigned_part(s@));
    if start == n {
        return Err(Error::other());
    }
    let mut v: u64 = 0;
    let mut i: usize = start;
    while i < n
        invariant
            n == s@.len(),
            start <= i <= n,
            d == s@.subrange(start as int, n as int),
            d == unsigned_part(s@),
            forall|j: int| 0 <= j < i - start ==> '0' <= #[trigger] d[j] <= '9',
            v == digits_value(d.subrange(0, i - start)),
            v <= u32::MAX,
        decreases n - i,
    {
        let c = s.get_char(i);
        assert(d[i - start] == c);
        if !('0' <= c && c <= '9') {
            assert(!all_digits(d));
            assert(unsigned_part(s@) == d);
            assert(decimal_value(s@) is None);
            return Err(Error::other());
        }
        let ghost pre = d.subrange(0, i - start);
        let ghost cur = d.subrange(0, i - start + 1);
        assert(cur.drop_last() =~= pre);
        let nv = v * 10 + (c as u32 - '0' as u32) as u64;
        if nv > u32::MAX as u64 {
            proof {
                if all_digits(d) {
                    lemma_digits_monotone(d, i - start + 1);
                }
            }
            return Err(Error::other());
        }
        v = nv;
        i = i + 1;
    }
    assert(d.subrange(0, n - start) =~= d);
    Ok(v as u32)
}

/// The study id in segment 1 of `path`; `Other` when it is missing or is not
/// a UUID.
pub fn get_study_id(path: &str) -> (r: Result<StudyId, Error>)
    ensures
        match segment(path@, 1) {
            Some(seg) => match uuid_parse_of(seg) {
                Some(u) => r is Ok && r->Ok_0 == StudyId(u),
                None => r is Err && r->Err_0.kind == crate::error::ErrorKind::Other,
            },
            None => r is Err && r->Err_0.kind == crate::error::ErrorKind::Other,
        },
{
    let seg = path_segment(path, 1)?;
    match StudyId::parse(seg.as_str()) {
        Some(id) => Ok(id),
        None => Err(Error::other()),
    }
}

/// The study name in segment 1 of `path`, as it stands.
pub fn get_study_name(path: &str) -> (r: Result<StudyName, Error>)
    ensures
        match segment(path@, 1) {
            Some(seg) => r is Ok && r->Ok_0@ == seg,
            None => r is Err && r->Err_0.kind == crate::error::ErrorKind::Other,
        },
{
    let seg = path_segment(path, 1)?;
    Ok(StudyName::new(seg))
}

/// The trial id in segment 1 of `path`.
pub fn get_trial_id(path: &str) -> (r: Result<TrialId, Error>)
    ensures
        match segment(path@, 1) {
            Some(seg) => match trial_id_of_text(seg) {
                Some(t) => r == Ok::<TrialId, Error>(t),
                None => r is Err && r->Err_0.kind == crate::error::ErrorKind::Other,
            },
            None => r is Err && r->Err_0.kind == crate::error::ErrorKind::Other,
        },
{
    let seg = path_segment(path, 1)?;
    match TrialId::parse(seg.as_str()) {
        Some(t) => Ok(t),
        None => Err(Error::other()),
    }
}

/// The attribute or parameter key in segment 3 of `path`, percent-decoded.
pub fn get_attr_key(path: &str) -> (r: Result<String, Error>)
    ensures
        match segment(path@, 3) {
            Some(seg) => match decoded(seg) {
                Some(k) => r is Ok && r->Ok_0@ == k,
                None => r is Err && r->Err_0.kind == crate::error::ErrorKind::Other,
            },
            None => r is Err && r->Err_0.kind == crate::error::ErrorKind::Other,
        },
{
    let seg = path_segment(path, 3)?;
    percent_decode(seg.as_str())
}

/// The subscriber id in segment 3 of `path`.
pub fn get_subscribe_id(path: &str) -> (r: Result<SubscribeId, Error>)
    ensures
        match segment(path@, 3) {
            Some(seg) => match decimal_value(seg) {
                Some(v) => r is Ok && r->Ok_0 == SubscribeId(v),
                None => r is Err && r->Err_0.kind == crate::error::ErrorKind::Other,
            },
            None => r is Err && r->Err_0.kind == crate::error::ErrorKind::Other,
        },
{
    let seg = path_segment(path, 3)?;
    let v = parse_u32(seg.as_str())?;
    Ok(SubscribeId::from_u32(v))
}

/// The step in segment 3 of `path`.
pub fn get_step(path: &str) -> (r: Result<u32, Error>)
    ensures
        match segment(path@, 3) {
            Some(seg) => match decimal_value(seg) {
                Some(v) => r is Ok && r->Ok_0 == v,
                None => r is Err && r->Err_0.kind == crate::error::ErrorKind::Other,
            },
            None => r is Err && r->Err_0.kind == crate::error::ErrorKind::Other,
        },
{
    let seg = path_segment(path, 3)?;
    parse_u32(seg.as_str())
}

} // verus!
