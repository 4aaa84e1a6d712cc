use vstd::prelude::*;

use crate::cursor::{Reader, Writer};
use crate::error::DiggerError;
use crate::header::{
    cfg_bit, header_at, header_bytes, opcode_of, rcode_of, with_bit, with_opcode, z_of, DnsHeader,
    DnsOperations, HEADER_LEN, QR_BIT,
};
use crate::kinds::{DnsClass, DnsType};
use crate::record::{
    name_error, question_at, question_bytes, record_at, Question, QuestionView, Record, RecordView,
};
use crate::name::{lemma_encoded_name_len, valid_name};

verus! {

/// The largest message carried over UDP.
pub const MAX_MESSAGE_LEN: usize = 512;

/// The flags word of a query: a standard query with recursion desired.
pub const QUERY_FLAGS: u16 = 0x0100;

/// `n` questions read one after another from offset `pos` of `msg`, and
/// the offset after them.
pub open spec fn questions_at(msg: Seq<u8>, pos: int, n: nat) -> Result<
    (Seq<QuestionView>, int),
    DiggerError,
>
    decreases n,
{
    if n == 0 {
        Ok((Seq::<QuestionView>::empty(), pos))
    } else {
        match question_at(msg, pos) {
            Err(e) => Err(e),
            Ok((q, p)) => match questions_at(msg, p, (n - 1) as nat) {
                Err(e) => Err(e),
                Ok((qs, end)) => Ok((seq![q] + qs, end)),
            },
        }
    }
}

/// `n` resource records read one after another from offset `pos` of `msg`,
/// and the offset after them.
pub open spec fn records_at(msg: Seq<u8>, pos: int, n: nat) -> Result<
    (Seq<RecordView>, int),
    DiggerError,
>
    decreases n,
{
    if n == 0 {
        Ok((Seq::<RecordView>::empty(), pos))
    } else {
        match record_at(msg, pos) {
            Err(e) => Err(e),
            Ok((r, p)) => match records_at(msg, p, (n - 1) as nat) {
                Err(e) => Err(e),
                Ok((rs, end)) => Ok((seq![r] + rs, end)),
            },
        }
    }
}

/// A whole DNS message: the header and its four sections in order.
#[derive(Debug, Clone, PartialEq, Eq)]
pub struct Message {
    pub header: DnsHeader,
    pub questions: Vec<Question>,
    pub answers: Vec<Record>,
    pub authorities: Vec<Record>,
    pub additionals: Vec<Record>,
}

pub struct MessageView {
    pub header: DnsHeader,
    pub questions: Seq<QuestionView>,
    pub answers: Seq<RecordView>,
    pub authorities: Seq<RecordView>,
    pub additionals: Seq<RecordView>,
}

pub open spec fn record_views(rs: Seq<Record>) -> Seq<RecordView> {
    rs.map_values(|r: Record| r@)
}

pub open spec fn question_views(qs: Seq<Question>) -> Seq<QuestionView> {
    qs.map_values(|q: Question| q@)
}

impl View for Message {
    type V = MessageView;

    open spec fn view(&self) -> MessageView {
        MessageView {
            header: self.header,
            questions: question_views(self.questions@),
            answers: record_views(self.answers@),
            authorities: record_views(self.authorities@),
            additionals: record_views(self.additionals@),
        }
    }
}

/// The message encoded in `msg`: the header, then exactly as many entries in
/// each section as the header declares. Bytes after the last entry are not
/// read.
pub open spec fn message_at(msg: Seq<u8>) -> Result<MessageView, DiggerError> {
    if msg.len() < HEADER_LEN {
        Err(DiggerError::TruncatedMessage)
    } else {
        let h = header_at(msg, 0);
        match questions_at(msg, HEADER_LEN as int, h.qdcount as nat) {
            Err(e) => Err(e),
            Ok((qs, end_qd)) => match records_at(msg, end_qd, h.ancount as nat) {
                Err(e) => Err(e),
                Ok((ans, end_an)) => match records_at(msg, end_an, h.nscount as nat) {
                    Err(e) => Err(e),
                    Ok((ns, end_ns)) => match records_at(msg, end_ns, h.arcount as nat) {
                        Err(e) => Err(e),
                        Ok((ar, _)) => Ok(
                            MessageView {
                                header: h,
                                questions: qs,
                                answers: ans,
                                authorities: ns,
                                additionals: ar,
                            },
                        ),
                    },
                },
            },
        }
    }
}

/// The response to the query with ID `id` encoded in `msg`: a
/// `ResponseMismatch` when the header does not have the QR bit set or
/// carries another ID.
pub open spec fn response_at(id: u16, msg: Seq<u8>) -> Result<MessageView, DiggerError> {
    if msg.len() < HEADER_LEN {
        Err(DiggerError::TruncatedMessage)
    } else if !cfg_bit(header_at(msg, 0).cfg, QR_BIT as u16) || header_at(msg, 0).id != id {
        Err(DiggerError::ResponseMismatch)
    } else {
        message_at(msg)
    }
}

/// The header of a query with ID `id`: QR clear, standard query, recursion
/// desired, one question.
pub open spec fn query_header(id: u16) -> DnsHeader {
    DnsHeader { id, cfg: QUERY_FLAGS, qdcount: 1, ancount: 0, nscount: 0, arcount: 0 }
}

/// The flags of a query header: QR clear, a standard query, recursion
/// desired, every other flag, the reserved field and the response code
/// zero.
pub proof fn lemma_query_header_flags(id: u16)
    ensures
        !query_header(id).qr_spec(),
        query_header(id).opcode_spec() == 0,
        !query_header(id).aa_spec(),
        !query_header(id).tc_spec(),
        query_header(id).rd_spec(),
        !query_header(id).ra_spec(),
        query_header(id).z_spec() == 0,
        query_header(id).rcode_spec() == 0,
{
    let c = QUERY_FLAGS;
    assert(!cfg_bit(c, 15) && !cfg_bit(c, 10) && !cfg_bit(c, 9) && cfg_bit(c, 8) && !cfg_bit(c, 7)
        && opcode_of(c) == 0 && z_of(c) == 0 && rcode_of(c) == 0) by (bit_vector)
        requires
            c == 0x0100u16,
    ;
}

/// The encoding of a query with ID `id` for one question.
pub open spec fn query_bytes(id: u16, name: Seq<u8>, qtype: DnsType, qclass: DnsClass) -> Seq<u8> {
    header_bytes(query_header(id)) + question_bytes(name, qtype, qclass)
}

/// When the bytes end right after `k` well-formed records and `n > k` are
/// declared, reading them fails with `TruncatedMessage`.
pub proof fn lemma_records_truncated(msg: Seq<u8>, pos: int, k: nat, n: nat)
    requires
        0 <= pos,
        k < n,
        records_at(msg, pos, k) is Ok,
        records_at(msg, pos, k)->Ok_0.1 == msg.len(),
    ensures
        records_at(msg, pos, n) == Err::<(Seq<RecordView>, int), DiggerError>(
            DiggerError::TruncatedMessage,
        ),
    decreases k,
{
    if k > 0 {
        let p = record_at(msg, pos)->Ok_0.1;
        lemma_record_advances(msg, pos);
        lemma_records_truncated(msg, p, (k - 1) as nat, (n - 1) as nat);
    }
}

proof fn lemma_record_advances(msg: Seq<u8>, pos: int)
    ensures
        record_at(msg, pos) is Ok ==> record_at(msg, pos)->Ok_0.1 > pos,
{
    crate::name::lemma_run_facts(msg, pos);
    match crate::name::run_at(msg, pos) {
        crate::name::NameRun::Jump { labels, target, next } => {
            crate::name::lemma_run_facts(msg, target);
        },
        _ => {},
    }
}

/// A message whose header declares more answers than the bytes hold, the
/// bytes ending right after `k < ancount` well-formed answers, fails to parse
/// with `TruncatedMessage`.
pub proof fn lemma_answers_truncated(msg: Seq<u8>, k: nat)
    requires
        msg.len() >= HEADER_LEN,
        questions_at(msg, HEADER_LEN as int, header_at(msg, 0).qdcount as nat) is Ok,
        records_at(
            msg,
            questions_at(msg, HEADER_LEN as int, header_at(msg, 0).qdcount as nat)->Ok_0.1,
            k,
        ) is Ok,
        records_at(
            msg,
            questions_at(msg, HEADER_LEN as int, header_at(msg, 0).qdcount as nat)->Ok_0.1,
            k,
        )->Ok_0.1 == msg.len(),
        k < header_at(msg, 0).ancount,
    ensures
        message_at(msg) == Err::<MessageView, DiggerError>(DiggerError::TruncatedMessage),
{
    let end_qd = questions_at(msg, HEADER_LEN as int, header_at(msg, 0).qdcount as nat)->Ok_0.1;
    lemma_questions_start(msg, HEADER_LEN as int, header_at(msg, 0).qdcount as nat);
    lemma_records_truncated(msg, end_qd, k, header_at(msg, 0).ancount as nat);
}

proof fn lemma_questions_start(msg: Seq<u8>, pos: int, n: nat)
    ensures
        questions_at(msg, pos, n) is Ok ==> questions_at(msg, pos, n)->Ok_0.1 >= pos,
    decreases n,
{
    if n > 0 {
        match question_at(msg, pos) {
            Ok((q, p)) => {
                crate::name::lemma_run_facts(msg, pos);
                match crate::name::run_at(msg, pos) {
                    crate::name::NameRun::Jump { labels, target, next } => {
                        crate::name::lemma_run_facts(msg, target);
                    },
                    _ => {},
                }
                lemma_questions_start(msg, p, (n - 1) as nat);
            },
            Err(_) => {},
        }
    }
}

fn parse_questions(rd: &mut Reader, n: u16) -> (r: Result<Vec<Question>, DiggerError>)
    requires
        old(rd).wf(),
    ensures
        final(rd).wf(),
        final(rd).data() == old(rd).data(),
        match questions_at(old(rd).data(), old(rd).offset(), n as nat) {
            Ok((qs, next)) => r is Ok && question_views(r->Ok_0@) == qs && final(rd).offset()
                == next,
            Err(e) => r == Err::<Vec<Question>, DiggerError>(e),
        },
{
    let ghost data = rd.data();
    let ghost start = rd.offset();
    let mut out: Vec<Question> = Vec::new();
    let mut i: u16 = 0;
    assert(question_views(out@) =~= Seq::<QuestionView>::empty());
    assert(questions_at(data, start, n as nat) == match questions_at(data, rd.offset(), (n - i) as nat) {
        Ok((qs, end)) => Ok((question_views(out@) + qs, end)),
        Err(e) => Err(e),
    }) by {
        match questions_at(data, start, n as nat) {
            Ok((qs, end)) => { assert(question_views(out@) + qs =~= qs); },
            Err(e) => {},
        }
    }
    while i < n
        invariant
            data == old(rd).data(),
            start == old(rd).offset(),
            rd.wf(),
            rd.data() == data,
            i <= n,
            questions_at(data, start, n as nat) == match questions_at(data, rd.offset(), (n - i) as nat) {
                Ok((qs, end)) => Ok((question_views(out@) + qs, end)),
                Err(e) => Err::<(Seq<QuestionView>, int), DiggerError>(e),
            },
        decreases n - i,
    {
        let ghost off = rd.offset();
        match Question::unpack(rd) {
            Err(e) => {
                return Err(e);
            },
            Ok(q) => {
                let ghost seen = question_views(out@);
                out.push(q);
                assert(question_views(out@) =~= seen.push(q@));
                proof {
                    match questions_at(data, rd.offset(), (n - i - 1) as nat) {
                        Ok((qs, end)) => {
                            assert(seen + (seq![q@] + qs) =~= seen.push(q@) + qs);
                        },
                        Err(e) => {},
                    }
                }
                i = i + 1;
            },
        }
    }
    Ok(out)
}

fn parse_records(rd: &mut Reader, n: u16) -> (r: Result<Vec<Record>, DiggerError>)
    requires
        old(rd).wf(),
    ensures
        final(rd).wf(),
        final(rd).data() == old(rd).data(),
        match records_at(old(rd).data(), old(rd).offset(), n as nat) {
            Ok((rs, next)) => r is Ok && record_views(r->Ok_0@) == rs && final(rd).offset()
                == next,
            Err(e) => r == Err::<Vec<Record>, DiggerError>(e),
        },
{
    let ghost data = rd.data();
    let ghost start = rd.offset();
    let mut out: Vec<Record> = Vec::new();
    let mut i: u16 = 0;
    assert(record_views(out@) =~= Seq::<RecordView>::empty());
    assert(records_at(data, start, n as nat) == match records_at(data, rd.offset(), (n - i) as nat) {
        Ok((rs, end)) => Ok((record_views(out@) + rs, end)),
        Err(e) => Err(e),
    }) by {
        match records_at(data, start, n as nat) {
            Ok((rs, end)) => { assert(record_views(out@) + rs =~= rs); },
            Err(e) => {},
        }
    }
    while i < n
        invariant
            data == old(rd).data(),
            start == old(rd).offset(),
            rd.wf(),
            rd.data() == data,
            i <= n,
            records_at(data, start, n as nat) == match records_at(data, rd.offset(), (n - i) as nat) {
                Ok((rs, end)) => Ok((record_views(out@) + rs, end)),
                Err(e) => Err::<(Seq<RecordView>, int), DiggerError>(e),
            },
        decreases n - i,
    {
        match Record::unpack(rd) {
            Err(e) => {
                return Err(e);
            },
            Ok(rec) => {
                let ghost seen = record_views(out@);
                out.push(rec);
                assert(record_views(out@) =~= seen.push(rec@));
                proof {
                    match records_at(data, rd.offset(), (n - i - 1) as nat) {
                        Ok((rs, end)) => {
                            assert(seen + (seq![rec@] + rs) =~= seen.push(rec@) + rs);
                        },
                        Err(e) => {},
                    }
                }
                i = i + 1;
            },
        }
    }
    Ok(out)
}

/// Parses a whole message: the header, then as many questions, answers,
/// authority and additional records as the header declares, in that order.
/// `TruncatedMessage` when the bytes run out first.
pub fn parse_message(buf: &[u8]) -> (r: Result<Message, DiggerError>)
    ensures
        match message_at(buf@) {
            Ok(m) => r is Ok && r->Ok_0@ == m,
            Err(e) => r == Err::<Message, DiggerError>(e),
        },
{
    let mut rd = Reader::at(buf, 0);
    let header = match DnsHeader::unpack(&mut rd) {
        Ok(h) => h,
        Err(e) => return Err(e),
    };
    let questions = match parse_questions(&mut rd, header.qdcount) {
        Ok(q) => q,
        Err(e) => return Err(e),
    };
    let answers = match parse_records(&mut rd, header.ancount) {
        Ok(a) => a,
        Err(e) => return Err(e),
    };
    let authorities = match parse_records(&mut rd, header.nscount) {
        Ok(a) => a,
        Err(e) => return Err(e),
    };
    let additionals = match parse_records(&mut rd, header.arcount) {
        Ok(a) => a,
        Err(e) => return Err(e),
    };
    Ok(Message { header, questions, answers, authorities, additionals })
}

/// Parses `buf` as the response to the query with ID `query_id`. The header
/// is checked first: `ResponseMismatch` when its QR bit is clear or its ID
/// differs; then the rest is parsed as by `parse_message`.
pub fn parse_response(query_id: u16, buf: &[u8]) -> (r: Result<Message, DiggerError>)
    ensures
        match response_at(query_id, buf@) {
            Ok(m) => r is Ok && r->Ok_0@ == m,
            Err(e) => r == Err::<Message, DiggerError>(e),
        },
{
    let mut rd = Reader::at(buf, 0);
    let header = match DnsHeader::unpack(&mut rd) {
        Ok(h) => h,
        Err(e) => return Err(e),
    };
    if !header.qr() || header.id != query_id {
        return Err(DiggerError::ResponseMismatch);
    }
    parse_message(buf)
}

/// Builds the query datagram for one question about `name`, with ID `id`,
/// QR clear, a standard query and recursion desired. Fails with the name's
/// error when the name cannot be encoded.
pub fn build_dns_request(id: u16, name: &[u8], qtype: DnsType, qclass: DnsClass) -> (r: Result<
    Vec<u8>,
    DiggerError,
>)
    ensures
        valid_name(name@) ==> r is Ok && r->Ok_0@ == query_bytes(id, name@, qtype, qclass),
        !valid_name(name@) ==> r == Err::<Vec<u8>, DiggerError>(name_error(name@)),
{
    let mut header = DnsHeader::new();
    header.id = id;
    header.set_opcode(DnsOperations::Query);
    header.set_rd(true);
    header.qdcount = 1;
    proof {
        let c = with_opcode(0u16, 0u16);
        assert(with_bit(c, 8, true) == QUERY_FLAGS) by (bit_vector)
            requires
                c == with_opcode(0u16, 0u16),
        ;
        assert(header == query_header(id));
        lemma_encoded_name_len(name@);
    }
    let mut w = Writer::new(MAX_MESSAGE_LEN);
    let _ = header.pack(&mut w);
    let question = Question { name: vstd::slice::slice_to_vec(name), qtype, qclass };
    match question.pack(&mut w) {
        Ok(()) => Ok(w.into_bytes()),
        Err(e) => Err(e),
    }
}

} // verus!
