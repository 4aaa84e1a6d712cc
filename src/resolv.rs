use vstd::prelude::*;

use crate::error::DiggerError;
use crate::name::{labels_of, DOT};

verus! {

/// The byte that ends a line.
pub const NEWLINE: u8 = 0x0a;

/// The keyword that starts a resolver line: `nameserver`.
pub open spec fn nameserver_key() -> Seq<u8> {
    seq![0x6eu8, 0x61, 0x6d, 0x65, 0x73, 0x65, 0x72, 0x76, 0x65, 0x72]
}

/// The length of the keyword.
pub const KEY_LEN: usize = 10;

/// The lines of a text, split at every newline, read left to right one byte
/// at a time.
pub open spec fn lines_of(s: Seq<u8>) -> Seq<Seq<u8>>
    decreases s.len(),
{
    if s.len() == 0 {
        seq![Seq::<u8>::empty()]
    } else {
        let prev = lines_of(s.drop_last());
        if s.last() == NEWLINE {
            prev.push(Seq::<u8>::empty())
        } else {
            prev.update(prev.len() - 1, prev.last().push(s.last()))
        }
    }
}

/// The line begins with `nameserver`.
pub open spec fn is_nameserver_line(l: Seq<u8>) -> bool {
    l.len() >= KEY_LEN && l.take(KEY_LEN as int) == nameserver_key()
}

/// The first line of `ls` that begins with `nameserver`.
pub open spec fn first_nameserver(ls: Seq<Seq<u8>>) -> Option<Seq<u8>>
    decreases ls.len(),
{
    if ls.len() == 0 {
        None
    } else {
        match first_nameserver(ls.drop_last()) {
            Some(l) => Some(l),
            None => if is_nameserver_line(ls.last()) {
                Some(ls.last())
            } else {
                None
            },
        }
    }
}

/// Space, tab or carriage return.
pub open spec fn is_blank(c: u8) -> bool {
    c == 0x20 || c == 0x09 || c == 0x0d
}

/// `s` without its leading blanks.
pub open spec fn trim_start(s: Seq<u8>) -> Seq<u8>
    decreases s.len(),
{
    if s.len() > 0 && is_blank(s[0]) {
        trim_start(s.skip(1))
    } else {
        s
    }
}

/// The bytes of `s` up to its first blank.
pub open spec fn leading_token(s: Seq<u8>) -> Seq<u8>
    decreases s.len(),
{
    if s.len() == 0 || is_blank(s[0]) {
        Seq::<u8>::empty()
    } else {
        seq![s[0]] + leading_token(s.skip(1))
    }
}

/// The first blank-delimited token after the keyword on a resolver line.
pub open spec fn nameserver_token(l: Seq<u8>) -> Seq<u8> {
    leading_token(trim_start(l.skip(KEY_LEN as int)))
}

pub open spec fn is_digit(c: u8) -> bool {
    0x30 <= c <= 0x39
}

/// The decimal value of a string of digits.
pub open spec fn decimal(s: Seq<u8>) -> nat
    decreases s.len(),
{
    if s.len() == 0 {
        0
    } else {
        decimal(s.drop_last()) * 10 + (s.last() - 0x30) as nat
    }
}

/// One to three digits with a value of at most 255, and no leading zero.
pub open spec fn valid_octet(f: Seq<u8>) -> bool {
    &&& 1 <= f.len() <= 3
    &&& (f.len() > 1 ==> f[0] != 0x30)
    &&& forall|k: int| 0 <= k < f.len() ==> is_digit(#[trigger] f[k])
    &&& decimal(f) <= 255
}

/// The IPv4 address written as a dotted quad in `s`.
pub open spec fn ipv4_of(s: Seq<u8>) -> Option<Seq<u8>> {
    let fs = labels_of(s);
    if fs.len() == 4 && forall|k: int| 0 <= k < 4 ==> valid_octet(#[trigger] fs[k]) {
        Some(seq![decimal(fs[0]) as u8, decimal(fs[1]) as u8, decimal(fs[2]) as u8, decimal(fs[3]) as u8])
    } else {
        None
    }
}

/// The resolver address that a resolver configuration text names: the
/// dotted quad on its first `nameserver` line.
pub open spec fn resolver_of(text: Seq<u8>) -> Option<Seq<u8>> {
    match first_nameserver(lines_of(text)) {
        None => None,
        Some(l) => ipv4_of(nameserver_token(l)),
    }
}

proof fn lemma_all_valid_push(ls: Seq<Seq<u8>>, l: Seq<u8>)
    ensures
        (forall|k: int| 0 <= k < ls.push(l).len() ==> valid_octet(#[trigger] ls.push(l)[k])) == (
        (forall|k: int| 0 <= k < ls.len() ==> valid_octet(#[trigger] ls[k])) && valid_octet(l)),
{
    if forall|k: int| 0 <= k < ls.push(l).len() ==> valid_octet(#[trigger] ls.push(l)[k]) {
        assert(valid_octet(ls.push(l)[ls.len() as int]));
        assert forall|k: int| 0 <= k < ls.len() implies valid_octet(#[trigger] ls[k]) by {
            assert(valid_octet(ls.push(l)[k]));
        }
    }
}

/// Parses a dotted quad such as `192.168.0.1`.
pub fn parse_ipv4(tok: &[u8]) -> (r: Option<[u8; 4]>)
    ensures
        match ipv4_of(tok@) {
            Some(a) => r is Some && r->Some_0@ == a,
            None => r is None,
        },
{
    let n = tok.len();
    let mut vals: Vec<u8> = Vec::new();
    let mut ok = true;
    let mut cur_val: u32 = 0;
    let mut cur_len: usize = 0;
    let mut cur_bad = false;
    let mut start: usize = 0;
    let mut i: usize = 0;
    let ghost mut done: Seq<Seq<u8>> = Seq::empty();
    assert(tok@.take(0) =~= Seq::<u8>::empty());
    assert(tok@.subrange(0, 0) =~= Seq::<u8>::empty());
    loop
        invariant
            n == tok@.len(),
            start <= i <= n,
            labels_of(tok@.take(i as int)) == done.push(tok@.subrange(start as int, i as int)),
            cur_len == i - start,
            cur_bad == !(cur_len <= 3 && forall|k: int| start <= k < i ==> is_digit(#[trigger] tok@[k])),
            !cur_bad ==> cur_val == decimal(tok@.subrange(start as int, i as int)),
            !cur_bad ==> cur_val <= 999 && (cur_len <= 2 ==> cur_val <= 99) && (cur_len <= 1
                ==> cur_val <= 9),
            ok == forall|k: int| 0 <= k < done.len() ==> valid_octet(#[trigger] done[k]),
            ok ==> vals@.len() == done.len(),
            ok ==> forall|k: int| 0 <= k < done.len() ==> vals@[k] == decimal(#[trigger] done[k]),
        decreases n - i + 1,
    {
        let ghost cur = tok@.subrange(start as int, i as int);
        if i == n || tok[i] == DOT {
            let lead_zero = cur_len > 1 && tok[start] == 0x30;
            let valid = !cur_bad && cur_len >= 1 && cur_val <= 255 && !lead_zero;
            proof {
                lemma_all_valid_push(done, cur);
                assert forall|k: int| 0 <= k < cur.len() implies #[trigger] cur[k] == tok@[start + k] by {}
                if valid {
                    assert forall|k: int| 0 <= k < cur.len() implies is_digit(#[trigger] cur[k]) by {
                        assert(is_digit(tok@[start + k]));
                    }
                }
                if valid_octet(cur) {
                    assert forall|k: int| start <= k < i implies is_digit(#[trigger] tok@[k]) by {
                        assert(is_digit(cur[k - start]));
                    }
                }
                assert(valid == valid_octet(cur));
            }
            if valid && ok {
                vals.push(cur_val as u8);
            } else {
                ok = false;
            }
            proof {
                if ok {
                    assert forall|k: int| 0 <= k < done.push(cur).len() implies vals@[k] == decimal(
                        #[trigger] done.push(cur)[k],
                    ) by {
                        if k < done.len() {
                            assert(done.push(cur)[k] == done[k]);
                        }
                    }
                }
            }
            if i == n {
                assert(tok@.take(n as int) =~= tok@);
                let ghost fs = done.push(cur);
                if ok && vals.len() == 4 {
                    let a = [vals[0], vals[1], vals[2], vals[3]];
                    proof {
                        assert(forall|k: int| 0 <= k < 4 ==> valid_octet(#[trigger] fs[k]));
                        assert(a@ =~= ipv4_of(tok@)->Some_0);
                    }
                    return Some(a);
                }
                proof {
                    if fs.len() == 4 && forall|k: int| 0 <= k < 4 ==> valid_octet(#[trigger] fs[k]) {
                        assert(ok);
                    }
                }
                return None;
            }
            assert(tok@.take(i + 1).drop_last() =~= tok@.take(i as int));
            proof {
                done = done.push(cur);
            }
            start = i + 1;
            cur_val = 0;
            cur_len = 0;
            cur_bad = false;
            assert(tok@.subrange(start as int, start as int) =~= Seq::<u8>::empty());
            assert(decimal(Seq::<u8>::empty()) == 0);
        } else {
            let c = tok[i];
            assert(tok@.take(i + 1).drop_last() =~= tok@.take(i as int));
            let ghost next = tok@.subrange(start as int, i + 1);
            assert(next =~= cur.push(c));
            assert(next.drop_last() =~= cur);
            assert(done.push(cur).update(done.len() as int, cur.push(c)) =~= done.push(next));
            if !cur_bad && cur_len < 3 && 0x30 <= c && c <= 0x39 {
                cur_val = cur_val * 10 + (c - 0x30) as u32;
            } else {
                cur_bad = true;
            }
            cur_len = cur_len + 1;
        }
        i = i + 1;
    }
}

/// Whether `text[s..e]` begins with `nameserver`.
fn starts_with_key(text: &[u8], s: usize, e: usize) -> (r: bool)
    requires
        s <= e <= text@.len(),
    ensures
        r == is_nameserver_line(text@.subrange(s as int, e as int)),
{
    let ghost line = text@.subrange(s as int, e as int);
    if e - s < KEY_LEN {
        return false;
    }
    let key: [u8; 10] = [0x6e, 0x61, 0x6d, 0x65, 0x73, 0x65, 0x72, 0x76, 0x65, 0x72];
    assert(key@ =~= nameserver_key());
    let mut k: usize = 0;
    while k < KEY_LEN
        invariant
            k <= KEY_LEN,
            s + KEY_LEN <= e <= text@.len(),
            key@ == nameserver_key(),
            line == text@.subrange(s as int, e as int),
            forall|j: int| 0 <= j < k ==> line[j] == key@[j],
        decreases KEY_LEN - k,
    {
        if text[s + k] != key[k] {
            assert(line.take(KEY_LEN as int)[k as int] != nameserver_key()[k as int]);
            return false;
        }
        k = k + 1;
    }
    assert(line.take(KEY_LEN as int) =~= nameserver_key());
    true
}

/// The resolver address that a resolver configuration text names: the
/// dotted quad that follows `nameserver` on the first line that begins with
/// that keyword. `ResolverNotFound` when no line does or the token is no
/// dotted quad.
pub fn parse_resolv_conf(text: &[u8]) -> (r: Result<[u8; 4], DiggerError>)
    ensures
        match resolver_of(text@) {
            Some(a) => r is Ok && r->Ok_0@ == a,
            None => r == Err::<[u8; 4], DiggerError>(DiggerError::ResolverNotFound),
        },
{
    let n = text.len();
    let mut found: Option<(usize, usize)> = None;
    let mut start: usize = 0;
    let mut i: usize = 0;
    let ghost mut done: Seq<Seq<u8>> = Seq::empty();
    assert(text@.take(0) =~= Seq::<u8>::empty());
    assert(text@.subrange(0, 0) =~= Seq::<u8>::empty());
    while i < n
        invariant
            n == text@.len(),
            start <= i <= n,
            lines_of(text@.take(i as int)) == done.push(text@.subrange(start as int, i as int)),
            match found {
                None => first_nameserver(done) is None,
                Some((s, e)) => s + KEY_LEN <= e <= n && first_nameserver(done) == Some(
                    text@.subrange(s as int, e as int),
                ),
            },
        decreases n - i,
    {
        let ghost cur = text@.subrange(start as int, i as int);
        assert(text@.take(i + 1).drop_last() =~= text@.take(i as int));
        if text[i] == NEWLINE {
            if found.is_none() && starts_with_key(text, start, i) {
                found = Some((start, i));
            }
            assert(done.push(cur).drop_last() =~= done);
            proof {
                done = done.push(cur);
            }
            start = i + 1;
            assert(text@.subrange(start as int, start as int) =~= Seq::<u8>::empty());
        } else {
            let c = text[i];
            let ghost next = text@.subrange(start as int, i + 1);
            assert(next =~= cur.push(c));
            assert(done.push(cur).update(done.len() as int, cur.push(c)) =~= done.push(next));
        }
        i = i + 1;
    }
    let ghost cur = text@.subrange(start as int, n as int);
    if found.is_none() && starts_with_key(text, start, n) {
        found = Some((start, n));
    }
    assert(done.push(cur).drop_last() =~= done);
    assert(text@.take(n as int) =~= text@);
    assert(match found {
        None => first_nameserver(lines_of(text@)) is None,
        Some((s, e)) => first_nameserver(lines_of(text@)) == Some(text@.subrange(s as int, e as int)),
    });
    let (s, e) = match found {
        None => return Err(DiggerError::ResolverNotFound),
        Some(p) => p,
    };
    let ghost line = text@.subrange(s as int, e as int);
    let mut a: usize = s + KEY_LEN;
    assert(line.skip(KEY_LEN as int) =~= text@.subrange(a as int, e as int));
    while a < e && (text[a] == 0x20 || text[a] == 0x09 || text[a] == 0x0d)
        invariant
            s + KEY_LEN <= a <= e <= text@.len(),
            trim_start(line.skip(KEY_LEN as int)) == trim_start(text@.subrange(a as int, e as int)),
        decreases e - a,
    {
        assert(text@.subrange(a as int, e as int).skip(1) =~= text@.subrange(a + 1, e as int));
        a = a + 1;
    }
    let ghost rest = text@.subrange(a as int, e as int);
    assert(trim_start(line.skip(KEY_LEN as int)) == rest);
    assert(text@.subrange(a as int, a as int) =~= Seq::<u8>::empty());
    let mut b: usize = a;
    while b < e && !(text[b] == 0x20 || text[b] == 0x09 || text[b] == 0x0d)
        invariant
            a <= b <= e <= text@.len(),
            rest == text@.subrange(a as int, e as int),
            leading_token(rest) == text@.subrange(a as int, b as int) + leading_token(
                text@.subrange(b as int, e as int),
            ),
        decreases e - b,
    {
        let ghost tail = text@.subrange(b as int, e as int);
        assert(tail.skip(1) =~= text@.subrange(b + 1, e as int));
        assert(leading_token(tail) == seq![tail[0]] + leading_token(tail.skip(1)));
        assert(text@.subrange(a as int, b as int) + seq![tail[0]] =~= text@.subrange(a as int, b + 1));
        b = b + 1;
    }
    assert(leading_token(text@.subrange(b as int, e as int)) =~= Seq::<u8>::empty());
    assert(leading_token(rest) =~= text@.subrange(a as int, b as int));
    let tok = vstd::slice::slice_subrange(text, a, b);
    match parse_ipv4(tok) {
        Some(addr) => Ok(addr),
        None => Err(DiggerError::ResolverNotFound),
    }
}

} // verus!
