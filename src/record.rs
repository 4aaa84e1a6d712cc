use vstd::prelude::*;

use crate::cursor::{be16_at, be16_bytes, be32_at, be32_bytes, Reader, Writer};
use crate::error::DiggerError;
use crate::kinds::{class_code, class_of, type_code, type_of, DnsClass, DnsType};
use crate::name::{
    decode_name, decode_spec, encode_name, encoded_name, join, labels_short, name_labels, valid_name,
    MAX_NAME_LEN,
};

verus! {

/// The error that encoding an invalid name gives: a label over 63 octets
/// first, then the total length, then an empty label.
pub open spec fn name_error(name: Seq<u8>) -> DiggerError {
    if !labels_short(name_labels(name)) {
        DiggerError::LabelTooLong
    } else if name.len() + 2 > MAX_NAME_LEN {
        DiggerError::NameTooLong
    } else {
        DiggerError::LabelTooLong
    }
}

/// A question: the dotted name asked about, its type and its class.
#[derive(Debug, Clone, PartialEq, Eq)]
pub struct Question {
    pub name: Vec<u8>,
    pub qtype: DnsType,
    pub qclass: DnsClass,
}

pub struct QuestionView {
    pub name: Seq<u8>,
    pub qtype: DnsType,
    pub qclass: DnsClass,
}

impl View for Question {
    type V = QuestionView;

    open spec fn view(&self) -> QuestionView {
        QuestionView { name: self.name@, qtype: self.qtype, qclass: self.qclass }
    }
}

/// A resource record. `data_offset` is where its data starts in the message
/// it was read from (0 for a record built by hand).
#[derive(Debug, Clone, PartialEq, Eq)]
pub struct Record {
    pub name: Vec<u8>,
    pub rtype: DnsType,
    pub rclass: DnsClass,
    pub ttl: u32,
    pub data: Vec<u8>,
    pub data_offset: usize,
}

pub struct RecordView {
    pub name: Seq<u8>,
    pub rtype: DnsType,
    pub rclass: DnsClass,
    pub ttl: u32,
    pub data: Seq<u8>,
    pub data_offset: int,
}

impl View for Record {
    type V = RecordView;

    open spec fn view(&self) -> RecordView {
        RecordView {
            name: self.name@,
            rtype: self.rtype,
            rclass: self.rclass,
            ttl: self.ttl,
            data: self.data@,
            data_offset: self.data_offset as int,
        }
    }
}

/// The wire encoding of a question.
pub open spec fn question_bytes(name: Seq<u8>, qtype: DnsType, qclass: DnsClass) -> Seq<u8> {
    encoded_name(name) + be16_bytes(type_code(qtype)) + be16_bytes(class_code(qclass))
}

/// The question at offset `pos` of `msg`, and the offset after it.
pub open spec fn question_at(msg: Seq<u8>, pos: int) -> Result<(QuestionView, int), DiggerError> {
    match decode_spec(msg, pos) {
        Err(e) => Err(e),
        Ok((labels, p)) => if p + 4 > msg.len() {
            Err(DiggerError::TruncatedMessage)
        } else {
            Ok(
                (
                    QuestionView {
                        name: join(labels),
                        qtype: type_of(be16_at(msg, p)),
                        qclass: class_of(be16_at(msg, p + 2)),
                    },
                    p + 4,
                ),
            )
        },
    }
}

/// The resource record at offset `pos` of `msg`, and the offset after it.
pub open spec fn record_at(msg: Seq<u8>, pos: int) -> Result<(RecordView, int), DiggerError> {
    match decode_spec(msg, pos) {
        Err(e) => Err(e),
        Ok((labels, p)) => if p + 10 > msg.len() {
            Err(DiggerError::TruncatedMessage)
        } else if p + 10 + be16_at(msg, p + 8) > msg.len() {
            Err(DiggerError::TruncatedMessage)
        } else {
            Ok(
                (
                    RecordView {
                        name: join(labels),
                        rtype: type_of(be16_at(msg, p)),
                        rclass: class_of(be16_at(msg, p + 2)),
                        ttl: be32_at(msg, p + 4),
                        data: msg.subrange(p + 10, p + 10 + be16_at(msg, p + 8)),
                        data_offset: p + 10,
                    },
                    p + 10 + be16_at(msg, p + 8),
                ),
            )
        },
    }
}

impl Question {
    /// Appends the encoding of the question. Fails with the name's error
    /// when the name cannot be encoded, and with `BufferOverflow` when the
    /// encoding does not fit; nothing is written on failure.
    pub fn pack(&self, w: &mut Writer) -> (r: Result<(), DiggerError>)
        requires
            old(w).wf(),
        ensures
            final(w).wf(),
            final(w).cap() == old(w).cap(),
            !valid_name(self.name@) ==> r == Err::<(), DiggerError>(name_error(self.name@)),
            valid_name(self.name@) ==> {
                let enc = question_bytes(self.name@, self.qtype, self.qclass);
                &&& old(w).bytes().len() + enc.len() <= old(w).cap() ==> r is Ok
                    && final(w).bytes() == old(w).bytes() + enc
                &&& old(w).bytes().len() + enc.len() > old(w).cap() ==> r == Err::<
                    (),
                    DiggerError,
                >(DiggerError::BufferOverflow)
            },
            r is Err ==> final(w).bytes() == old(w).bytes(),
    {
        let enc = match encode_name(self.name.as_slice()) {
            Ok(e) => e,
            Err(e) => return Err(e),
        };
        if w.room() < 4 || enc.len() > w.room() - 4 {
            return Err(DiggerError::BufferOverflow);
        }
        let _ = w.write_bytes(enc.as_slice());
        let _ = w.write_u16(self.qtype.to_u16());
        let _ = w.write_u16(self.qclass.to_u16());
        assert(w.bytes() =~= old(w).bytes() + question_bytes(self.name@, self.qtype, self.qclass));
        Ok(())
    }

    /// Reads a question at the reader's position and leaves the reader after
    /// it.
    pub fn unpack(rd: &mut Reader) -> (r: Result<Question, DiggerError>)
        requires
            old(rd).wf(),
        ensures
            final(rd).wf(),
            final(rd).data() == old(rd).data(),
            match question_at(old(rd).data(), old(rd).offset()) {
                Ok((q, next)) => r is Ok && r->Ok_0@ == q && final(rd).offset() == next,
                Err(e) => r == Err::<Question, DiggerError>(e),
            },
    {
        let name = match decode_name(rd) {
            Ok(n) => n,
            Err(e) => return Err(e),
        };
        if rd.remaining() < 4 {
            return Err(DiggerError::TruncatedMessage);
        }
        let qtype = DnsType::from_u16(rd.read_u16().unwrap());
        let qclass = DnsClass::from_u16(rd.read_u16().unwrap());
        Ok(Question { name, qtype, qclass })
    }
}

/// The wire encoding of a resource record.
pub open spec fn record_bytes(r: RecordView) -> Seq<u8> {
    encoded_name(r.name) + be16_bytes(type_code(r.rtype)) + be16_bytes(class_code(r.rclass))
        + be32_bytes(r.ttl) + be16_bytes(r.data.len() as u16) + r.data
}

impl Record {
    /// Appends the encoding of the record. Fails with the name's error when
    /// the name cannot be encoded, and with `BufferOverflow` when the data
    /// is longer than a 16-bit length can say or the encoding does not fit;
    /// nothing is written on failure.
    pub fn pack(&self, w: &mut Writer) -> (r: Result<(), DiggerError>)
        requires
            old(w).wf(),
        ensures
            final(w).wf(),
            final(w).cap() == old(w).cap(),
            !valid_name(self.name@) ==> r == Err::<(), DiggerError>(name_error(self.name@)),
            valid_name(self.name@) ==> {
                let enc = record_bytes(self@);
                &&& self.data@.len() <= 0xFFFF && old(w).bytes().len() + enc.len() <= old(w).cap()
                    ==> r is Ok && final(w).bytes() == old(w).bytes() + enc
                &&& !(self.data@.len() <= 0xFFFF && old(w).bytes().len() + enc.len() <= old(
                    w,
                ).cap()) ==> r == Err::<(), DiggerError>(DiggerError::BufferOverflow)
            },
            r is Err ==> final(w).bytes() == old(w).bytes(),
    {
        let enc = match encode_name(self.name.as_slice()) {
            Ok(e) => e,
            Err(e) => return Err(e),
        };
        if self.data.len() > 0xFFFF || w.room() < 10 || enc.len() > w.room() - 10
            || self.data.len() > w.room() - 10 - enc.len() {
            return Err(DiggerError::BufferOverflow);
        }
        let _ = w.write_bytes(enc.as_slice());
        let _ = w.write_u16(self.rtype.to_u16());
        let _ = w.write_u16(self.rclass.to_u16());
        let _ = w.write_u32(self.ttl);
        let _ = w.write_u16(self.data.len() as u16);
        let _ = w.write_bytes(self.data.as_slice());
        assert(w.bytes() =~= old(w).bytes() + record_bytes(self@));
        Ok(())
    }

    /// Reads a resource record at the reader's position and leaves the
    /// reader after it.
    pub fn unpack(rd: &mut Reader) -> (r: Result<Record, DiggerError>)
        requires
            old(rd).wf(),
        ensures
            final(rd).wf(),
            final(rd).data() == old(rd).data(),
            match record_at(old(rd).data(), old(rd).offset()) {
                Ok((rec, next)) => r is Ok && r->Ok_0@ == rec && final(rd).offset() == next,
                Err(e) => r == Err::<Record, DiggerError>(e),
            },
    {
        let name = match decode_name(rd) {
            Ok(n) => n,
            Err(e) => return Err(e),
        };
        if rd.remaining() < 10 {
            return Err(DiggerError::TruncatedMessage);
        }
        let rtype = DnsType::from_u16(rd.read_u16().unwrap());
        let rclass = DnsClass::from_u16(rd.read_u16().unwrap());
        let ttl = rd.read_u32().unwrap();
        let len = rd.read_u16().unwrap();
        let data_offset = rd.position();
        let data = match rd.read_bytes(len as usize) {
            Ok(d) => d,
            Err(e) => return Err(e),
        };
        Ok(Record { name, rtype, rclass, ttl, data, data_offset })
    }

    /// The IPv4 address of an A record with four bytes of data.
    pub fn address(&self) -> (r: Option<[u8; 4]>)
        ensures
            self.rtype == DnsType::Address && self.data@.len() == 4 ==> r is Some && r->Some_0@
                == self.data@,
            !(self.rtype == DnsType::Address && self.data@.len() == 4) ==> r is None,
    {
        if self.rtype == DnsType::Address && self.data.len() == 4 {
            let a = [self.data[0], self.data[1], self.data[2], self.data[3]];
            assert(a@ =~= self.data@);
            Some(a)
        } else {
            None
        }
    }

    /// The target name of a CNAME record, read from `msg`, the message the
    /// record came from, so that compression pointers resolve.
    pub fn cname(&self, msg: &[u8]) -> (r: Result<Option<Vec<u8>>, DiggerError>)
        ensures
            self.rtype != DnsType::CName ==> r == Ok::<Option<Vec<u8>>, DiggerError>(None),
            self.rtype == DnsType::CName && self.data_offset > msg@.len() ==> r == Err::<
                Option<Vec<u8>>,
                DiggerError,
            >(DiggerError::TruncatedMessage),
            self.rtype == DnsType::CName && self.data_offset <= msg@.len() ==> match decode_spec(
                msg@,
                self.data_offset as int,
            ) {
                Ok((labels, _)) => r is Ok && r->Ok_0 is Some && r->Ok_0->Some_0@ == join(labels),
                Err(e) => r == Err::<Option<Vec<u8>>, DiggerError>(e),
            },
    {
        if self.rtype != DnsType::CName {
            return Ok(None);
        }
        if self.data_offset > msg.len() {
            return Err(DiggerError::TruncatedMessage);
        }
        let mut rd = Reader::at(msg, self.data_offset);
        match decode_name(&mut rd) {
            Ok(n) => Ok(Some(n)),
            Err(e) => Err(e),
        }
    }
}

} // verus!
