use vstd::prelude::*;

use crate::cursor::Reader;
use crate::error::DiggerError;

verus! {

/// The byte that separates labels in a dotted name.
pub const DOT: u8 = 0x2e;

/// The longest label.
pub const MAX_LABEL_LEN: usize = 63;

/// The longest encoded name, terminator included.
pub const MAX_NAME_LEN: usize = 255;

/// A length octet at or above this value starts a compression pointer.
pub const POINTER_TAG: u8 = 0xC0;

/// The labels of a dotted name, split at every dot, read left to right one
/// byte at a time.
pub open spec fn labels_of(s: Seq<u8>) -> Seq<Seq<u8>>
    decreases s.len(),
{
    if s.len() == 0 {
        seq![Seq::<u8>::empty()]
    } else {
        let prev = labels_of(s.drop_last());
        if s.last() == DOT {
            prev.push(Seq::<u8>::empty())
        } else {
            prev.update(prev.len() - 1, prev.last().push(s.last()))
        }
    }
}

/// The labels of a name: none for the root name (the empty string).
pub open spec fn name_labels(s: Seq<u8>) -> Seq<Seq<u8>> {
    if s.len() == 0 {
        Seq::<Seq<u8>>::empty()
    } else {
        labels_of(s)
    }
}

/// Labels joined with dots.
pub open spec fn join(ls: Seq<Seq<u8>>) -> Seq<u8>
    decreases ls.len(),
{
    if ls.len() == 0 {
        Seq::<u8>::empty()
    } else if ls.len() == 1 {
        ls[0]
    } else {
        join(ls.drop_last()) + seq![DOT] + ls.last()
    }
}

/// Every label is between 1 and 63 octets long.
pub open spec fn labels_ok(ls: Seq<Seq<u8>>) -> bool {
    forall|k: int| 0 <= k < ls.len() ==> 1 <= #[trigger] ls[k].len() <= MAX_LABEL_LEN
}

/// No label is longer than 63 octets.
pub open spec fn labels_short(ls: Seq<Seq<u8>>) -> bool {
    forall|k: int| 0 <= k < ls.len() ==> #[trigger] ls[k].len() <= MAX_LABEL_LEN
}

/// A name that can be encoded: at most 253 bytes (255 encoded), and every
/// label between 1 and 63 octets.
pub open spec fn valid_name(s: Seq<u8>) -> bool {
    s.len() + 2 <= MAX_NAME_LEN && labels_ok(name_labels(s))
}

/// Each label as a length octet followed by its bytes.
pub open spec fn labels_wire(ls: Seq<Seq<u8>>) -> Seq<u8>
    decreases ls.len(),
{
    if ls.len() == 0 {
        Seq::<u8>::empty()
    } else {
        seq![ls[0].len() as u8] + ls[0] + labels_wire(ls.skip(1))
    }
}

/// The wire encoding of a dotted name: its labels, then a zero octet.
pub open spec fn encoded_name(s: Seq<u8>) -> Seq<u8> {
    labels_wire(name_labels(s)).push(0u8)
}

/// How a run of labels read from one offset ends.
pub enum NameRun {
    /// At a zero octet; `next` follows it.
    Done { labels: Seq<Seq<u8>>, next: int },
    /// At a compression pointer to `target`; `next` follows the pointer.
    Jump { labels: Seq<Seq<u8>>, target: int, next: int },
    /// At a malformed or missing byte.
    Failed { err: DiggerError },
}

/// `r` with the labels `ls` read before it.
pub open spec fn prepend(ls: Seq<Seq<u8>>, r: NameRun) -> NameRun {
    match r {
        NameRun::Done { labels, next } => NameRun::Done { labels: ls + labels, next },
        NameRun::Jump { labels, target, next } => NameRun::Jump { labels: ls + labels, target, next },
        NameRun::Failed { err } => NameRun::Failed { err },
    }
}

/// The labels of `msg` from offset `pos` up to a zero octet or a pointer.
/// A length octet of 64 to 191 is no label length; a label or a pointer
/// that runs past the end truncates the message.
pub open spec fn run_at(msg: Seq<u8>, pos: int) -> NameRun
    decreases msg.len() - pos,
{
    if pos < 0 || pos >= msg.len() {
        NameRun::Failed { err: DiggerError::TruncatedMessage }
    } else {
        let b = msg[pos];
        if b == 0 {
            NameRun::Done { labels: Seq::<Seq<u8>>::empty(), next: pos + 1 }
        } else if b >= POINTER_TAG {
            if pos + 1 >= msg.len() {
                NameRun::Failed { err: DiggerError::TruncatedMessage }
            } else {
                NameRun::Jump {
                    labels: Seq::<Seq<u8>>::empty(),
                    target: (b - POINTER_TAG) * 256 + msg[pos + 1],
                    next: pos + 2,
                }
            }
        } else if b > MAX_LABEL_LEN {
            NameRun::Failed { err: DiggerError::LabelTooLong }
        } else if pos + 1 + b > msg.len() {
            NameRun::Failed { err: DiggerError::TruncatedMessage }
        } else {
            prepend(seq![msg.subrange(pos + 1, pos + 1 + b)], run_at(msg, pos + 1 + b))
        }
    }
}

/// The labels of the name at offset `pos` of `msg`, and the offset after the
/// name field. At most one compression pointer is followed; a second one is
/// a `CompressionLoop`.
pub open spec fn decode_spec(msg: Seq<u8>, pos: int) -> Result<(Seq<Seq<u8>>, int), DiggerError> {
    match run_at(msg, pos) {
        NameRun::Done { labels, next } => Ok((labels, next)),
        NameRun::Failed { err } => Err(err),
        NameRun::Jump { labels: first, target, next } => match run_at(msg, target) {
            NameRun::Done { labels: rest, next: _ } => Ok((first + rest, next)),
            NameRun::Jump { .. } => Err(DiggerError::CompressionLoop),
            NameRun::Failed { err } => Err(err),
        },
    }
}

proof fn lemma_labels_wire_push(ls: Seq<Seq<u8>>, l: Seq<u8>)
    ensures
        labels_wire(ls.push(l)) == labels_wire(ls) + seq![l.len() as u8] + l,
    decreases ls.len(),
{
    if ls.len() == 0 {
        assert(ls.push(l).skip(1) =~= Seq::<Seq<u8>>::empty());
        assert(labels_wire(Seq::<Seq<u8>>::empty()) == Seq::<u8>::empty());
        assert(labels_wire(ls.push(l)) == seq![l.len() as u8] + l + labels_wire(ls.push(l).skip(1)));
        assert(labels_wire(ls.push(l)) =~= labels_wire(ls) + seq![l.len() as u8] + l);
    } else {
        assert(ls.push(l).skip(1) =~= ls.skip(1).push(l));
        lemma_labels_wire_push(ls.skip(1), l);
        assert(ls.push(l)[0] == ls[0]);
        assert(labels_wire(ls.push(l)) == seq![ls[0].len() as u8] + ls[0] + labels_wire(ls.push(l).skip(1)));
        assert(labels_wire(ls.push(l)) =~= labels_wire(ls) + seq![l.len() as u8] + l);
    }
}

proof fn lemma_labels_of_nonempty(s: Seq<u8>)
    ensures
        labels_of(s).len() >= 1,
    decreases s.len(),
{
    if s.len() > 0 {
        lemma_labels_of_nonempty(s.drop_last());
    }
}

proof fn lemma_labels_short_push(ls: Seq<Seq<u8>>, l: Seq<u8>)
    ensures
        labels_short(ls.push(l)) == (labels_short(ls) && l.len() <= MAX_LABEL_LEN),
{
    if labels_short(ls.push(l)) {
        assert(ls.push(l)[ls.len() as int] == l);
        assert forall|k: int| 0 <= k < ls.len() implies #[trigger] ls[k].len() <= MAX_LABEL_LEN by {
            assert(ls.push(l)[k] == ls[k]);
        }
    }
    if labels_short(ls) && l.len() <= MAX_LABEL_LEN {
        assert forall|k: int| 0 <= k < ls.push(l).len() implies #[trigger] ls.push(l)[k].len()
            <= MAX_LABEL_LEN by {
            if k < ls.len() {
                assert(ls.push(l)[k] == ls[k]);
            }
        }
    }
}

proof fn lemma_labels_ok_push(ls: Seq<Seq<u8>>, l: Seq<u8>)
    ensures
        labels_ok(ls.push(l)) == (labels_ok(ls) && 1 <= l.len() <= MAX_LABEL_LEN),
{
    if labels_ok(ls.push(l)) {
        assert(ls.push(l)[ls.len() as int] == l);
        assert forall|k: int| 0 <= k < ls.len() implies 1 <= #[trigger] ls[k].len() <= MAX_LABEL_LEN by {
            assert(ls.push(l)[k] == ls[k]);
        }
    }
    if labels_ok(ls) && 1 <= l.len() <= MAX_LABEL_LEN {
        assert forall|k: int| 0 <= k < ls.push(l).len() implies 1 <= #[trigger] ls.push(l)[k].len()
            <= MAX_LABEL_LEN by {
            if k < ls.len() {
                assert(ls.push(l)[k] == ls[k]);
            }
        }
    }
}

/// A run ends inside the message and reads only well-formed labels.
pub proof fn lemma_run_facts(msg: Seq<u8>, pos: int)
    ensures
        match run_at(msg, pos) {
            NameRun::Done { labels, next } => pos < next <= msg.len() && labels_ok(labels) && 2
                * labels.len() + 1 <= next - pos,
            NameRun::Jump { labels, target, next } => pos < next <= msg.len() && labels_ok(labels)
                && 0 <= target < 0x4000 && 2 * labels.len() + 2 <= next - pos,
            NameRun::Failed { .. } => true,
        },
    decreases msg.len() - pos,
{
    if 0 <= pos < msg.len() {
        let b = msg[pos];
        if b != 0 && b < POINTER_TAG && b <= MAX_LABEL_LEN && pos + 1 + b <= msg.len() {
            let label = msg.subrange(pos + 1, pos + 1 + b);
            lemma_run_facts(msg, pos + 1 + b);
            match run_at(msg, pos + 1 + b) {
                NameRun::Done { labels, next } => {
                    lemma_labels_ok_push(Seq::<Seq<u8>>::empty(), label);
                    assert(labels_ok(seq![label]));
                    assert(labels_ok(seq![label] + labels)) by {
                        assert forall|k: int| 0 <= k < (seq![label] + labels).len() implies 1
                            <= #[trigger] (seq![label] + labels)[k].len() <= MAX_LABEL_LEN by {
                            if k > 0 {
                                assert((seq![label] + labels)[k] == labels[k - 1]);
                            }
                        }
                    }
                },
                NameRun::Jump { labels, target, next } => {
                    assert(labels_ok(seq![label] + labels)) by {
                        assert forall|k: int| 0 <= k < (seq![label] + labels).len() implies 1
                            <= #[trigger] (seq![label] + labels)[k].len() <= MAX_LABEL_LEN by {
                            if k > 0 {
                                assert((seq![label] + labels)[k] == labels[k - 1]);
                            }
                        }
                    }
                },
                NameRun::Failed { .. } => {},
            }
        }
    }
}

proof fn lemma_labels_wire_len(s: Seq<u8>)
    ensures
        labels_wire(labels_of(s)).len() == s.len() + 1,
    decreases s.len(),
{
    if s.len() == 0 {
        lemma_labels_wire_push(Seq::<Seq<u8>>::empty(), Seq::<u8>::empty());
        assert(Seq::<Seq<u8>>::empty().push(Seq::<u8>::empty()) =~= labels_of(s));
    } else {
        let prev = labels_of(s.drop_last());
        lemma_labels_of_nonempty(s.drop_last());
        lemma_labels_wire_len(s.drop_last());
        if s.last() == DOT {
            lemma_labels_wire_push(prev, Seq::<u8>::empty());
        } else {
            let init = prev.drop_last();
            assert(init.push(prev.last()) =~= prev);
            lemma_labels_wire_push(init, prev.last());
            let ls = prev.update(prev.len() - 1, prev.last().push(s.last()));
            assert(init.push(prev.last().push(s.last())) =~= ls);
            lemma_labels_wire_push(init, prev.last().push(s.last()));
        }
    }
}

/// The encoding of a name is two bytes longer than the dotted name, one
/// byte for the root name.
pub proof fn lemma_encoded_name_len(s: Seq<u8>)
    ensures
        s.len() > 0 ==> encoded_name(s).len() == s.len() + 2,
        s.len() == 0 ==> encoded_name(s).len() == 1,
{
    if s.len() > 0 {
        lemma_labels_wire_len(s);
    } else {
        assert(labels_wire(Seq::<Seq<u8>>::empty()) =~= Seq::<u8>::empty());
    }
}

/// Splitting a name at its dots and joining the labels again gives the name.
pub proof fn lemma_join_labels_of(s: Seq<u8>)
    ensures
        join(labels_of(s)) == s,
    decreases s.len(),
{
    if s.len() > 0 {
        let prev = labels_of(s.drop_last());
        lemma_labels_of_nonempty(s.drop_last());
        lemma_join_labels_of(s.drop_last());
        if s.last() == DOT {
            assert(prev.push(Seq::<u8>::empty()).drop_last() =~= prev);
            assert(join(labels_of(s)) =~= s);
        } else {
            let ls = prev.update(prev.len() - 1, prev.last().push(s.last()));
            if prev.len() == 1 {
                assert(join(labels_of(s)) =~= s);
            } else {
                assert(ls.drop_last() =~= prev.drop_last());
                assert(join(prev) == join(prev.drop_last()) + seq![DOT] + prev.last());
                assert(ls.last() == prev.last().push(s.last()));
                assert(join(ls) == join(ls.drop_last()) + seq![DOT] + ls.last());
                assert(labels_of(s) == ls);
                assert(s =~= s.drop_last().push(s.last()));
                assert(join(ls) =~= s);
            }
        }
    }
}

/// A run over well-formed labels followed by a zero octet reads back exactly
/// those labels.
proof fn lemma_run_wire(pre: Seq<u8>, ls: Seq<Seq<u8>>, post: Seq<u8>)
    requires
        labels_ok(ls),
    ensures
        run_at(pre + labels_wire(ls) + seq![0u8] + post, pre.len() as int) == (NameRun::Done {
            labels: ls,
            next: (pre.len() + labels_wire(ls).len() + 1) as int,
        }),
    decreases ls.len(),
{
    let msg = pre + labels_wire(ls) + seq![0u8] + post;
    let p = pre.len() as int;
    if ls.len() == 0 {
        assert(ls =~= Seq::<Seq<u8>>::empty());
        assert(labels_wire(ls) =~= Seq::<u8>::empty());
        assert(msg[p] == 0);
        assert(run_at(msg, p) == (NameRun::Done { labels: ls, next: p + 1 }));
    } else {
        let l = ls[0];
        assert(1 <= ls[0].len() <= MAX_LABEL_LEN);
        let pre2 = pre + seq![l.len() as u8] + l;
        assert(labels_ok(ls.skip(1))) by {
            assert forall|k: int| 0 <= k < ls.skip(1).len() implies 1 <= #[trigger] ls.skip(1)[k].len() <= MAX_LABEL_LEN by {
                assert(ls.skip(1)[k] == ls[k + 1]);
            }
        }
        lemma_run_wire(pre2, ls.skip(1), post);
        assert(pre2 + labels_wire(ls.skip(1)) + seq![0u8] + post =~= msg);
        assert(labels_wire(ls) == seq![l.len() as u8] + l + labels_wire(ls.skip(1)));
        assert(msg[p] == l.len() as u8);
        assert(msg[p] as int == l.len());
        assert(msg.subrange(p + 1, p + 1 + l.len()) =~= l);
        assert(seq![l] + ls.skip(1) =~= ls);
        assert(run_at(msg, p) == prepend(seq![l], run_at(msg, p + 1 + l.len())));
        assert(pre2.len() == p + 1 + l.len());
        assert(run_at(msg, p) == (NameRun::Done {
            labels: seq![l] + ls.skip(1),
            next: (pre2.len() + labels_wire(ls.skip(1)).len() + 1) as int,
        }));
    }
}

/// Decoding the encoding of a valid name, whatever follows it, gives the
/// name back and ends right after the encoding.
pub proof fn lemma_name_round_trip(name: Seq<u8>, post: Seq<u8>)
    requires
        valid_name(name),
    ensures
        decode_spec(encoded_name(name) + post, 0) == Ok::<(Seq<Seq<u8>>, int), DiggerError>(
            (name_labels(name), encoded_name(name).len() as int),
        ),
        join(name_labels(name)) == name,
{
    lemma_run_wire(Seq::<u8>::empty(), name_labels(name), post);
    assert(Seq::<u8>::empty() + labels_wire(name_labels(name)) + seq![0u8] + post
        =~= encoded_name(name) + post);
    if name.len() > 0 {
        lemma_join_labels_of(name);
    }
}

/// A name whose first compression pointer leads, directly or through labels,
/// to another pointer fails with `CompressionLoop`.
pub proof fn lemma_pointer_chain(msg: Seq<u8>, pos: int)
    requires
        run_at(msg, pos) is Jump,
        run_at(msg, run_at(msg, pos)->Jump_target) is Jump,
    ensures
        decode_spec(msg, pos) == Err::<(Seq<Seq<u8>>, int), DiggerError>(
            DiggerError::CompressionLoop,
        ),
{
}

/// Decoding a name is total and bounded: whatever the bytes, including
/// pointers that loop, it either fails or ends inside the message after at
/// most one pointer, with well-formed labels no more numerous than the
/// message's bytes.
pub proof fn lemma_decode_bounded(msg: Seq<u8>, pos: int)
    ensures
        decode_spec(msg, pos) is Ok ==> {
            let (labels, next) = decode_spec(msg, pos)->Ok_0;
            &&& 0 <= pos < next <= msg.len()
            &&& labels_ok(labels)
            &&& labels.len() <= msg.len()
        },
{
    lemma_run_facts(msg, pos);
    match run_at(msg, pos) {
        NameRun::Jump { labels: first, target, next } => {
            lemma_run_facts(msg, target);
            match run_at(msg, target) {
                NameRun::Done { labels: rest, next: _ } => {
                    assert(labels_ok(first + rest)) by {
                        assert forall|k: int| 0 <= k < (first + rest).len() implies 1
                            <= #[trigger] (first + rest)[k].len() <= MAX_LABEL_LEN by {
                            if k < first.len() {
                                assert((first + rest)[k] == first[k]);
                            } else {
                                assert((first + rest)[k] == rest[k - first.len()]);
                            }
                        }
                    }
                },
                _ => {},
            }
        },
        _ => {},
    }
}

/// A compression pointer to its own offset fails with `CompressionLoop`.
pub proof fn lemma_pointer_loop(msg: Seq<u8>, pos: int)
    requires
        0 <= pos,
        pos + 1 < msg.len(),
        msg[pos] >= POINTER_TAG,
        (msg[pos] - POINTER_TAG) * 256 + msg[pos + 1] == pos,
    ensures
        decode_spec(msg, pos) == Err::<(Seq<Seq<u8>>, int), DiggerError>(
            DiggerError::CompressionLoop,
        ),
{
}

/// Appends a length octet and then the bytes `name[start..end]`.
fn push_label(out: &mut Vec<u8>, name: &[u8], start: usize, end: usize)
    requires
        start <= end <= name@.len(),
        end - start < 256,
    ensures
        final(out)@ == old(out)@ + seq![(end - start) as u8] + name@.subrange(
            start as int,
            end as int,
        ),
{
    out.push((end - start) as u8);
    let ghost base = out@;
    let mut k: usize = start;
    while k < end
        invariant
            start <= k <= end,
            end <= name@.len(),
            out@ == base + name@.subrange(start as int, k as int),
        decreases end - k,
    {
        out.push(name[k]);
        k = k + 1;
        assert(out@ =~= base + name@.subrange(start as int, k as int));
    }
}

/// The wire encoding of the dotted name `name`. The checks come in this
/// order: `LabelTooLong` when a label is longer than 63 octets; then
/// `NameTooLong` when the encoding would exceed 255 octets; then
/// `LabelTooLong` when a label is empty. The empty name is the root.
pub fn encode_name(name: &[u8]) -> (r: Result<Vec<u8>, DiggerError>)
    ensures
        !labels_short(name_labels(name@)) ==> r == Err::<Vec<u8>, DiggerError>(
            DiggerError::LabelTooLong,
        ),
        labels_short(name_labels(name@)) && name@.len() + 2 > MAX_NAME_LEN ==> r == Err::<
            Vec<u8>,
            DiggerError,
        >(DiggerError::NameTooLong),
        labels_short(name_labels(name@)) && name@.len() + 2 <= MAX_NAME_LEN && !labels_ok(
            name_labels(name@),
        ) ==> r == Err::<Vec<u8>, DiggerError>(DiggerError::LabelTooLong),
        valid_name(name@) ==> r is Ok && r->Ok_0@ == encoded_name(name@),
{
    let n = name.len();
    let mut out: Vec<u8> = Vec::new();
    if n == 0 {
        out.push(0);
        assert(out@ =~= encoded_name(name@));
        return Ok(out);
    }
    let mut bad = false;
    let mut long = false;
    let mut start: usize = 0;
    let mut i: usize = 0;
    let ghost mut done: Seq<Seq<u8>> = Seq::empty();
    assert(name@.take(0) =~= Seq::<u8>::empty());
    assert(name@.subrange(0, 0) =~= Seq::<u8>::empty());
    while i < n
        invariant
            n == name@.len(),
            start <= i <= n,
            labels_of(name@.take(i as int)) == done.push(name@.subrange(start as int, i as int)),
            !bad ==> out@ == labels_wire(done),
            bad == !labels_ok(done),
            long == !labels_short(done),
        decreases n - i,
    {
        let ghost cur = name@.subrange(start as int, i as int);
        assert(name@.take(i + 1).drop_last() =~= name@.take(i as int));
        assert(name@.take(i + 1).last() == name@[i as int]);
        if name[i] == DOT {
            let len = i - start;
            if len > MAX_LABEL_LEN {
                long = true;
            }
            if len < 1 || len > MAX_LABEL_LEN {
                bad = true;
            } else if !bad {
                push_label(&mut out, name, start, i);
            }
            proof {
                lemma_labels_wire_push(done, cur);
                lemma_labels_ok_push(done, cur);
                lemma_labels_short_push(done, cur);
                done = done.push(cur);
            }
            start = i + 1;
            assert(name@.subrange(start as int, start as int) =~= Seq::<u8>::empty());
        } else {
            assert(name@.subrange(start as int, i + 1) =~= cur.push(name@[i as int]));
            assert(done.push(cur).update(done.len() as int, cur.push(name@[i as int]))
                =~= done.push(name@.subrange(start as int, i + 1)));
        }
        i = i + 1;
    }
    let ghost cur = name@.subrange(start as int, n as int);
    let len = n - start;
    proof {
        lemma_labels_wire_push(done, cur);
        lemma_labels_ok_push(done, cur);
        lemma_labels_short_push(done, cur);
        assert(name@.take(n as int) =~= name@);
    }
    if long || len > MAX_LABEL_LEN {
        return Err(DiggerError::LabelTooLong);
    }
    if n > MAX_NAME_LEN - 2 {
        return Err(DiggerError::NameTooLong);
    }
    if bad || len < 1 {
        return Err(DiggerError::LabelTooLong);
    }
    push_label(&mut out, name, start, n);
    out.push(0);
    Ok(out)
}

/// Reads labels from offset `pos` of `msg`, appending them dotted to `out`
/// after the labels `acc` already there. Returns the offset after the run
/// and, when the run ends at a pointer, its target.
fn read_run(msg: &[u8], pos: usize, out: &mut Vec<u8>, Ghost(acc): Ghost<Seq<Seq<u8>>>) -> (r:
    Result<(usize, Option<usize>), DiggerError>)
    requires
        old(out)@ == join(acc),
        labels_ok(acc),
    ensures
        match run_at(msg@, pos as int) {
            NameRun::Done { labels, next } => r is Ok && r->Ok_0.0 == next && r->Ok_0.1 is None
                && final(out)@ == join(acc + labels),
            NameRun::Jump { labels, target, next } => r is Ok && r->Ok_0.0 == next && r->Ok_0.1
                == Some(target as usize) && final(out)@ == join(acc + labels),
            NameRun::Failed { err } => r == Err::<(usize, Option<usize>), DiggerError>(err),
        },
{
    let n = msg.len();
    let mut p: usize = pos;
    let ghost mut seen: Seq<Seq<u8>> = Seq::empty();
    assert(prepend(seen, run_at(msg@, p as int)) == run_at(msg@, pos as int)) by {
        assert(seen + Seq::<Seq<u8>>::empty() =~= Seq::<Seq<u8>>::empty());
        match run_at(msg@, pos as int) {
            NameRun::Done { labels, next } => {
                assert(seen + labels =~= labels);
            },
            NameRun::Jump { labels, target, next } => {
                assert(seen + labels =~= labels);
            },
            NameRun::Failed { err } => {},
        }
    }
    loop
        invariant
            n == msg@.len(),
            pos <= p,
            run_at(msg@, pos as int) == prepend(seen, run_at(msg@, p as int)),
            out@ == join(acc + seen),
            labels_ok(acc + seen),
        decreases n - p,
    {
        if p >= n {
            return Err(DiggerError::TruncatedMessage);
        }
        let b = msg[p];
        if b == 0 {
            assert(acc + (seen + Seq::<Seq<u8>>::empty()) =~= acc + seen);
            return Ok((p + 1, None));
        }
        if b >= POINTER_TAG {
            if p + 1 >= n {
                return Err(DiggerError::TruncatedMessage);
            }
            let target: usize = ((b - POINTER_TAG) as usize) * 256 + msg[p + 1] as usize;
            assert(acc + (seen + Seq::<Seq<u8>>::empty()) =~= acc + seen);
            return Ok((p + 2, Some(target)));
        }
        if b as usize > MAX_LABEL_LEN {
            return Err(DiggerError::LabelTooLong);
        }
        let len = b as usize;
        if len > n - p - 1 {
            return Err(DiggerError::TruncatedMessage);
        }
        let ghost label = msg@.subrange(p + 1, p + 1 + len);
        let ghost all = acc + seen;
        proof {
            if all.len() > 0 {
                assert(all[all.len() - 1].len() >= 1);
                assert(join(all).len() >= 1);
            }
        }
        if out.len() > 0 {
            out.push(DOT);
        }
        let ghost base = out@;
        let mut k: usize = p + 1;
        while k < p + 1 + len
            invariant
                p + 1 <= k <= p + 1 + len,
                p + 1 + len <= n,
                n == msg@.len(),
                out@ == base + msg@.subrange(p + 1, k as int),
            decreases p + 1 + len - k,
        {
            out.push(msg[k]);
            k = k + 1;
            assert(out@ =~= base + msg@.subrange(p + 1, k as int));
        }
        proof {
            assert(all.push(label).drop_last() =~= all);
            assert(acc + seen.push(label) =~= all.push(label));
            lemma_labels_ok_push(all, label);
            assert(out@ =~= join(all.push(label)));
            let rest = run_at(msg@, p + 1 + len);
            assert(prepend(seen, prepend(seq![label], rest)) == prepend(seen.push(label), rest)) by {
                match rest {
                    NameRun::Done { labels, next } => {
                        assert(seen + (seq![label] + labels) =~= seen.push(label) + labels);
                    },
                    NameRun::Jump { labels, target, next } => {
                        assert(seen + (seq![label] + labels) =~= seen.push(label) + labels);
                    },
                    NameRun::Failed { err } => {},
                }
            }
            seen = seen.push(label);
        }
        p = p + 1 + len;
    }
}

/// Reads the name at the reader's position, following at most one
/// compression pointer over the whole message, and leaves the reader right
/// after the name field. The result is the labels joined with dots. It
/// returns on every input: a second pointer is a `CompressionLoop`.
pub fn decode_name(rd: &mut Reader) -> (r: Result<Vec<u8>, DiggerError>)
    requires
        old(rd).wf(),
    ensures
        final(rd).wf(),
        final(rd).data() == old(rd).data(),
        match decode_spec(old(rd).data(), old(rd).offset()) {
            Ok((labels, next)) => r is Ok && r->Ok_0@ == join(labels) && final(rd).offset()
                == next,
            Err(e) => r == Err::<Vec<u8>, DiggerError>(e),
        },
{
    let msg = rd.bytes();
    let pos = rd.position();
    let mut out: Vec<u8> = Vec::new();
    assert(out@ =~= join(Seq::<Seq<u8>>::empty()));
    proof {
        lemma_run_facts(msg@, pos as int);
    }
    match read_run(msg, pos, &mut out, Ghost(Seq::empty())) {
        Err(e) => Err(e),
        Ok((next, None)) => {
            assert(Seq::<Seq<u8>>::empty() + decode_spec(msg@, pos as int)->Ok_0.0
                =~= decode_spec(msg@, pos as int)->Ok_0.0);
            rd.seek(next);
            Ok(out)
        },
        Ok((next, Some(target))) => {
            let ghost first = match run_at(msg@, pos as int) {
                NameRun::Jump { labels, target, next } => labels,
                _ => Seq::<Seq<u8>>::empty(),
            };
            assert(Seq::<Seq<u8>>::empty() + first =~= first);
            match read_run(msg, target, &mut out, Ghost(first)) {
                Err(e) => Err(e),
                Ok((_, None)) => {
                    rd.seek(next);
                    Ok(out)
                },
                Ok((_, Some(_))) => Err(DiggerError::CompressionLoop),
            }
        },
    }
}

} // verus!
