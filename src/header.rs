use vstd::prelude::*;

use crate::cursor::{be16_at, be16_bytes, Reader, Writer};
use crate::error::DiggerError;

verus! {

/// Bit offsets, counted from the least significant bit, of the one-bit
/// flags of the header's flags word.
pub const QR_BIT: usize = 15;
pub const AA_BIT: usize = 10;
pub const TC_BIT: usize = 9;
pub const RD_BIT: usize = 8;
pub const RA_BIT: usize = 7;

/// Where the 4-bit opcode sits in the flags word.
pub const OPCODE_SHIFT: u16 = 11;
pub const OPCODE_MASK: u16 = 0x7800;

/// Where the 3-bit reserved field sits in the flags word.
pub const Z_SHIFT: u16 = 4;

/// Where the 4-bit response code sits in the flags word.
pub const RCODE_MASK: u16 = 0x000F;

/// The size of an encoded header.
pub const HEADER_LEN: usize = 12;

/// Bit `i` of `cfg`.
pub open spec fn cfg_bit(cfg: u16, i: u16) -> bool {
    (cfg >> i) & 1u16 == 1u16
}

/// `cfg` with bit `i` set to `set`.
pub open spec fn with_bit(cfg: u16, i: u16, set: bool) -> u16 {
    if set {
        cfg | (1u16 << i)
    } else {
        cfg & !(1u16 << i)
    }
}

/// The opcode field of `cfg`.
pub open spec fn opcode_of(cfg: u16) -> u16 {
    (cfg >> OPCODE_SHIFT) & 0xFu16
}

/// The reserved field of `cfg`.
pub open spec fn z_of(cfg: u16) -> u16 {
    (cfg >> Z_SHIFT) & 0x7u16
}

/// The response-code field of `cfg`.
pub open spec fn rcode_of(cfg: u16) -> u16 {
    cfg & RCODE_MASK
}

/// `cfg` with its opcode field set to `op`.
pub open spec fn with_opcode(cfg: u16, op: u16) -> u16 {
    (cfg & !OPCODE_MASK) | (op << OPCODE_SHIFT)
}

/// `cfg` with its response-code field set to `rc`.
pub open spec fn with_rcode(cfg: u16, rc: u16) -> u16 {
    (cfg & !RCODE_MASK) | rc
}

/// The kind of query a message carries. Codes other than the three defined
/// ones are kept as they came.
#[derive(Debug, Clone, Copy, PartialEq, Eq, Structural)]
pub enum DnsOperations {
    Query,
    IQuery,
    Status,
    Unrecognized(u8),
}

/// The opcode value of an operation.
pub open spec fn operation_code(op: DnsOperations) -> u16 {
    match op {
        DnsOperations::Query => 0,
        DnsOperations::IQuery => 1,
        DnsOperations::Status => 2,
        DnsOperations::Unrecognized(v) => v as u16,
    }
}

/// The operation that an opcode value stands for.
pub open spec fn operation_of(code: u16) -> DnsOperations {
    if code == 0 {
        DnsOperations::Query
    } else if code == 1 {
        DnsOperations::IQuery
    } else if code == 2 {
        DnsOperations::Status
    } else {
        DnsOperations::Unrecognized(code as u8)
    }
}

impl DnsOperations {
    /// The opcode value of this operation.
    pub fn code(&self) -> (r: u8)
        ensures
            r as u16 == operation_code(*self),
    {
        match self {
            DnsOperations::Query => 0,
            DnsOperations::IQuery => 1,
            DnsOperations::Status => 2,
            DnsOperations::Unrecognized(v) => *v,
        }
    }

    /// The operation that opcode value `v` stands for.
    pub fn from_code(v: u8) -> (r: DnsOperations)
        ensures
            r == operation_of(v as u16),
    {
        match v {
            0 => DnsOperations::Query,
            1 => DnsOperations::IQuery,
            2 => DnsOperations::Status,
            _ => DnsOperations::Unrecognized(v),
        }
    }
}

/// The fixed 12-byte header of a DNS message: the transaction ID, the flags
/// word and the four section counts.
#[derive(Debug, Clone, Copy, PartialEq, Eq, Structural)]
pub struct DnsHeader {
    pub id: u16,
    pub cfg: u16,
    pub qdcount: u16,
    pub ancount: u16,
    pub nscount: u16,
    pub arcount: u16,
}

/// The wire encoding of `h`: its six fields in order, each in network byte
/// order.
pub open spec fn header_bytes(h: DnsHeader) -> Seq<u8> {
    be16_bytes(h.id) + be16_bytes(h.cfg) + be16_bytes(h.qdcount) + be16_bytes(h.ancount)
        + be16_bytes(h.nscount) + be16_bytes(h.arcount)
}

/// The header encoded at offset `i` of `s`.
pub open spec fn header_at(s: Seq<u8>, i: int) -> DnsHeader {
    DnsHeader {
        id: be16_at(s, i),
        cfg: be16_at(s, i + 2),
        qdcount: be16_at(s, i + 4),
        ancount: be16_at(s, i + 6),
        nscount: be16_at(s, i + 8),
        arcount: be16_at(s, i + 10),
    }
}

/// `b` is `a` with flag bit `i` set to `set` and every other bit and field
/// kept.
pub open spec fn flag_changed(a: DnsHeader, b: DnsHeader, i: u16, set: bool) -> bool {
    &&& b == (DnsHeader { cfg: with_bit(a.cfg, i, set), ..a })
    &&& cfg_bit(b.cfg, i) == set
    &&& forall|j: u16| j < 16 && j != i ==> cfg_bit(b.cfg, j) == cfg_bit(a.cfg, j)
    &&& opcode_of(b.cfg) == opcode_of(a.cfg)
    &&& z_of(b.cfg) == z_of(a.cfg)
    &&& rcode_of(b.cfg) == rcode_of(a.cfg)
}

/// `b` is `a` with a 4-bit field changed and the one-bit flags, the
/// reserved field and every other field kept.
pub open spec fn flags_kept(a: DnsHeader, b: DnsHeader) -> bool {
    &&& cfg_bit(b.cfg, 15) == cfg_bit(a.cfg, 15)
    &&& cfg_bit(b.cfg, 10) == cfg_bit(a.cfg, 10)
    &&& cfg_bit(b.cfg, 9) == cfg_bit(a.cfg, 9)
    &&& cfg_bit(b.cfg, 8) == cfg_bit(a.cfg, 8)
    &&& cfg_bit(b.cfg, 7) == cfg_bit(a.cfg, 7)
    &&& z_of(b.cfg) == z_of(a.cfg)
}

proof fn lemma_with_bit(c: u16, i: u16, set: bool)
    by (bit_vector)
    requires
        i < 16,
    ensures
        cfg_bit(with_bit(c, i, set), i) == set,
        forall|j: u16| j < 16 && j != i ==> cfg_bit(with_bit(c, i, set), j) == cfg_bit(c, j),
{
}

proof fn lemma_flag_bit_keeps_fields(c: u16, i: u16, set: bool)
    by (bit_vector)
    requires
        i == 7 || i == 8 || i == 9 || i == 10 || i == 15,
    ensures
        opcode_of(with_bit(c, i, set)) == opcode_of(c),
        z_of(with_bit(c, i, set)) == z_of(c),
        rcode_of(with_bit(c, i, set)) == rcode_of(c),
{
}

proof fn lemma_with_opcode(c: u16, op: u16)
    by (bit_vector)
    requires
        op < 16,
    ensures
        opcode_of(with_opcode(c, op)) == op,
        z_of(with_opcode(c, op)) == z_of(c),
        rcode_of(with_opcode(c, op)) == rcode_of(c),
        cfg_bit(with_opcode(c, op), 15) == cfg_bit(c, 15),
        cfg_bit(with_opcode(c, op), 10) == cfg_bit(c, 10),
        cfg_bit(with_opcode(c, op), 9) == cfg_bit(c, 9),
        cfg_bit(with_opcode(c, op), 8) == cfg_bit(c, 8),
        cfg_bit(with_opcode(c, op), 7) == cfg_bit(c, 7),
{
}

proof fn lemma_with_rcode(c: u16, rc: u16)
    by (bit_vector)
    requires
        rc < 16,
    ensures
        rcode_of(with_rcode(c, rc)) == rc,
        z_of(with_rcode(c, rc)) == z_of(c),
        opcode_of(with_rcode(c, rc)) == opcode_of(c),
        cfg_bit(with_rcode(c, rc), 15) == cfg_bit(c, 15),
        cfg_bit(with_rcode(c, rc), 10) == cfg_bit(c, 10),
        cfg_bit(with_rcode(c, rc), 9) == cfg_bit(c, 9),
        cfg_bit(with_rcode(c, rc), 8) == cfg_bit(c, 8),
        cfg_bit(with_rcode(c, rc), 7) == cfg_bit(c, 7),
{
}

proof fn lemma_be16_round_trip(v: u16)
    ensures
        be16_at(be16_bytes(v), 0) == v,
{
    assert((v / 256) as u8 as int == v / 256);
    assert((v % 256) as u8 as int == v % 256);
}

/// Reading back the encoding of a header, wherever it stands in a buffer,
/// gives the header again.
pub proof fn lemma_header_round_trip(pre: Seq<u8>, h: DnsHeader, post: Seq<u8>)
    ensures
        header_at(pre + header_bytes(h) + post, pre.len() as int) == h,
{
    let s = pre + header_bytes(h) + post;
    let i = pre.len() as int;
    lemma_be16_round_trip(h.id);
    lemma_be16_round_trip(h.cfg);
    lemma_be16_round_trip(h.qdcount);
    lemma_be16_round_trip(h.ancount);
    lemma_be16_round_trip(h.nscount);
    lemma_be16_round_trip(h.arcount);
    assert(s.subrange(i, i + 2) =~= be16_bytes(h.id));
    assert(s.subrange(i + 2, i + 4) =~= be16_bytes(h.cfg));
    assert(s.subrange(i + 4, i + 6) =~= be16_bytes(h.qdcount));
    assert(s.subrange(i + 6, i + 8) =~= be16_bytes(h.ancount));
    assert(s.subrange(i + 8, i + 10) =~= be16_bytes(h.nscount));
    assert(s.subrange(i + 10, i + 12) =~= be16_bytes(h.arcount));
}

impl DnsHeader {
    /// The QR flag: set in a response, clear in a query.
    pub open spec fn qr_spec(&self) -> bool {
        cfg_bit(self.cfg, QR_BIT as u16)
    }

    pub open spec fn aa_spec(&self) -> bool {
        cfg_bit(self.cfg, AA_BIT as u16)
    }

    pub open spec fn tc_spec(&self) -> bool {
        cfg_bit(self.cfg, TC_BIT as u16)
    }

    pub open spec fn rd_spec(&self) -> bool {
        cfg_bit(self.cfg, RD_BIT as u16)
    }

    pub open spec fn ra_spec(&self) -> bool {
        cfg_bit(self.cfg, RA_BIT as u16)
    }

    pub open spec fn opcode_spec(&self) -> u16 {
        opcode_of(self.cfg)
    }

    pub open spec fn z_spec(&self) -> u16 {
        z_of(self.cfg)
    }

    pub open spec fn rcode_spec(&self) -> u16 {
        rcode_of(self.cfg)
    }

    /// A header with every field zero.
    pub fn new() -> (h: DnsHeader)
        ensures
            h == (DnsHeader { id: 0, cfg: 0, qdcount: 0, ancount: 0, nscount: 0, arcount: 0 }),
    {
        DnsHeader { id: 0, cfg: 0, qdcount: 0, ancount: 0, nscount: 0, arcount: 0 }
    }

    /// Bit `offset` of the flags word.
    pub fn get_cfg_bit(&self, offset: usize) -> (r: bool)
        requires
            offset < 16,
        ensures
            r == cfg_bit(self.cfg, offset as u16),
    {
        (self.cfg >> (offset as u16)) & 1u16 == 1u16
    }

    /// Sets bit `offset` of the flags word to `set`, leaving every other bit
    /// and every other field as it was.
    pub fn set_cfg_bit(&mut self, offset: usize, set: bool)
        requires
            offset < 16,
        ensures
            *final(self) == (DnsHeader { cfg: with_bit(old(self).cfg, offset as u16, set), ..*old(self) }),
            cfg_bit(final(self).cfg, offset as u16) == set,
            forall|j: u16|
                j < 16 && j != offset ==> cfg_bit(final(self).cfg, j) == cfg_bit(old(self).cfg, j),
    {
        proof {
            lemma_with_bit(self.cfg, offset as u16, set);
        }
        let op: u16 = 1u16 << (offset as u16);
        if set {
            self.cfg = self.cfg | op;
        } else {
            self.cfg = self.cfg & !op;
        }
    }

    fn set_flag(&mut self, offset: usize, set: bool)
        requires
            offset == QR_BIT || offset == AA_BIT || offset == TC_BIT || offset == RD_BIT
                || offset == RA_BIT,
        ensures
            flag_changed(*old(self), *final(self), offset as u16, set),
    {
        proof {
            lemma_flag_bit_keeps_fields(self.cfg, offset as u16, set);
        }
        self.set_cfg_bit(offset, set);
    }

    /// The QR flag: set in a response, clear in a query.
    pub fn qr(&self) -> (r: bool)
        ensures
            r == self.qr_spec(),
    {
        self.get_cfg_bit(QR_BIT)
    }

    pub fn set_qr(&mut self, set: bool)
        ensures
            flag_changed(*old(self), *final(self), QR_BIT as u16, set),
    {
        self.set_flag(QR_BIT, set);
    }

    /// The AA flag: the answer is authoritative.
    pub fn aa(&self) -> (r: bool)
        ensures
            r == self.aa_spec(),
    {
        self.get_cfg_bit(AA_BIT)
    }

    pub fn set_aa(&mut self, set: bool)
        ensures
            flag_changed(*old(self), *final(self), AA_BIT as u16, set),
    {
        self.set_flag(AA_BIT, set);
    }

    /// The TC flag: the message was truncated.
    pub fn tc(&self) -> (r: bool)
        ensures
            r == self.tc_spec(),
    {
        self.get_cfg_bit(TC_BIT)
    }

    pub fn set_tc(&mut self, set: bool)
        ensures
            flag_changed(*old(self), *final(self), TC_BIT as u16, set),
    {
        self.set_flag(TC_BIT, set);
    }

    /// The RD flag: recursion desired.
    pub fn rd(&self) -> (r: bool)
        ensures
            r == self.rd_spec(),
    {
        self.get_cfg_bit(RD_BIT)
    }

    pub fn set_rd(&mut self, set: bool)
        ensures
            flag_changed(*old(self), *final(self), RD_BIT as u16, set),
    {
        self.set_flag(RD_BIT, set);
    }

    /// The RA flag: recursion available.
    pub fn ra(&self) -> (r: bool)
        ensures
            r == self.ra_spec(),
    {
        self.get_cfg_bit(RA_BIT)
    }

    pub fn set_ra(&mut self, set: bool)
        ensures
            flag_changed(*old(self), *final(self), RA_BIT as u16, set),
    {
        self.set_flag(RA_BIT, set);
    }

    /// The operation of the opcode field; an undefined code is kept as it is.
    pub fn opcode(&self) -> (r: DnsOperations)
        ensures
            r == operation_of(self.opcode_spec()),
    {
        let op: u16 = (self.cfg >> OPCODE_SHIFT) & 0xFu16;
        proof {
            let c = self.cfg;
            assert((c >> 11u16) & 0xFu16 < 16) by (bit_vector);
        }
        DnsOperations::from_code(op as u8)
    }

    /// Sets the opcode field to the code of `op`.
    pub fn set_opcode(&mut self, op: DnsOperations)
        requires
            operation_code(op) < 16,
        ensures
            *final(self) == (DnsHeader { cfg: with_opcode(old(self).cfg, operation_code(op)), ..*old(self) }),
            final(self).opcode_spec() == operation_code(op),
            final(self).rcode_spec() == old(self).rcode_spec(),
            flags_kept(*old(self), *final(self)),
    {
        let code: u16 = op.code() as u16;
        proof {
            lemma_with_opcode(self.cfg, code);
        }
        self.cfg = (self.cfg & !OPCODE_MASK) | (code << OPCODE_SHIFT);
    }

    /// The response code field.
    pub fn rcode(&self) -> (r: u8)
        ensures
            r as u16 == self.rcode_spec(),
    {
        proof {
            let c = self.cfg;
            assert(c & 0xFu16 < 16) by (bit_vector);
        }
        (self.cfg & RCODE_MASK) as u8
    }

    /// Sets the response code field to `rc`.
    pub fn set_rcode(&mut self, rc: u8)
        requires
            rc < 16,
        ensures
            *final(self) == (DnsHeader { cfg: with_rcode(old(self).cfg, rc as u16), ..*old(self) }),
            final(self).rcode_spec() == rc as u16,
            final(self).opcode_spec() == old(self).opcode_spec(),
            flags_kept(*old(self), *final(self)),
    {
        proof {
            lemma_with_rcode(self.cfg, rc as u16);
        }
        self.cfg = (self.cfg & !RCODE_MASK) | (rc as u16);
    }

    /// Appends the 12-byte encoding of the header, or fails with
    /// `BufferOverflow`, writing nothing, when it does not fit.
    pub fn pack(&self, w: &mut Writer) -> (r: Result<(), DiggerError>)
        requires
            old(w).wf(),
        ensures
            final(w).wf(),
            final(w).cap() == old(w).cap(),
            old(w).bytes().len() + HEADER_LEN <= old(w).cap() <==> r is Ok,
            r is Ok ==> final(w).bytes() == old(w).bytes() + header_bytes(*self),
            r is Err ==> r == Err::<(), DiggerError>(DiggerError::BufferOverflow)
                && final(w).bytes() == old(w).bytes(),
    {
        if w.room() < HEADER_LEN {
            return Err(DiggerError::BufferOverflow);
        }
        let _ = w.write_u16(self.id);
        let _ = w.write_u16(self.cfg);
        let _ = w.write_u16(self.qdcount);
        let _ = w.write_u16(self.ancount);
        let _ = w.write_u16(self.nscount);
        let _ = w.write_u16(self.arcount);
        assert(w.bytes() =~= old(w).bytes() + header_bytes(*self));
        Ok(())
    }

    /// Reads a header at the reader's position, or fails with
    /// `TruncatedMessage`, unmoved, when fewer than 12 bytes remain.
    pub fn unpack(rd: &mut Reader) -> (r: Result<DnsHeader, DiggerError>)
        requires
            old(rd).wf(),
        ensures
            final(rd).wf(),
            final(rd).data() == old(rd).data(),
            old(rd).offset() + HEADER_LEN <= old(rd).data().len() ==> r
                == Ok::<DnsHeader, DiggerError>(header_at(old(rd).data(), old(rd).offset()))
                && final(rd).offset() == old(rd).offset() + HEADER_LEN,
            old(rd).offset() + HEADER_LEN > old(rd).data().len() ==> r
                == Err::<DnsHeader, DiggerError>(DiggerError::TruncatedMessage)
                && final(rd).offset() == old(rd).offset(),
    {
        if rd.remaining() < HEADER_LEN {
            return Err(DiggerError::TruncatedMessage);
        }
        let id = rd.read_u16().unwrap();
        let cfg = rd.read_u16().unwrap();
        let qdcount = rd.read_u16().unwrap();
        let ancount = rd.read_u16().unwrap();
        let nscount = rd.read_u16().unwrap();
        let arcount = rd.read_u16().unwrap();
        Ok(DnsHeader { id, cfg, qdcount, ancount, nscount, arcount })
    }
}

} // verus!
