use vstd::prelude::*;

verus! {

/// The type of a question or a resource record. Codes without a name here are kept as they came.
#[derive(Debug, Clone, Copy, PartialEq, Eq, Structural)]
pub enum DnsType {
    Address,
    NameServer,
    MailDestination,
    MailForwarder,
    CName,
    StartOfAuthority,
    MailBox,
    MailGroup,
    MailRename,
    Null,
    WellKnownService,
    Pointer,
    HostInformation,
    MailboxInformation,
    MailExchange,
    Text,
    AXFR,
    MAILB,
    MAILA,
    All,
    Unrecognized(u16),
}

/// The wire code of each record type.
pub open spec fn type_code(t: DnsType) -> u16 {
    match t {
        DnsType::Address => 1,
        DnsType::NameServer => 2,
        DnsType::MailDestination => 3,
        DnsType::MailForwarder => 4,
        DnsType::CName => 5,
        DnsType::StartOfAuthority => 6,
        DnsType::MailBox => 7,
        DnsType::MailGroup => 8,
        DnsType::MailRename => 9,
        DnsType::Null => 10,
        DnsType::WellKnownService => 11,
        DnsType::Pointer => 12,
        DnsType::HostInformation => 13,
        DnsType::MailboxInformation => 14,
        DnsType::MailExchange => 15,
        DnsType::Text => 16,
        DnsType::AXFR => 252,
        DnsType::MAILB => 253,
        DnsType::MAILA => 254,
        DnsType::All => 255,
        DnsType::Unrecognized(v) => v,
    }
}

/// The record type that a wire code stands for.
pub open spec fn type_of(v: u16) -> DnsType {
    if v == 1 {
        DnsType::Address
    } else if v == 2 {
        DnsType::NameServer
    } else if v == 3 {
        DnsType::MailDestination
    } else if v == 4 {
        DnsType::MailForwarder
    } else if v == 5 {
        DnsType::CName
    } else if v == 6 {
        DnsType::StartOfAuthority
    } else if v == 7 {
        DnsType::MailBox
    } else if v == 8 {
        DnsType::MailGroup
    } else if v == 9 {
        DnsType::MailRename
    } else if v == 10 {
        DnsType::Null
    } else if v == 11 {
        DnsType::WellKnownService
    } else if v == 12 {
        DnsType::Pointer
    } else if v == 13 {
        DnsType::HostInformation
    } else if v == 14 {
        DnsType::MailboxInformation
    } else if v == 15 {
        DnsType::MailExchange
    } else if v == 16 {
        DnsType::Text
    } else if v == 252 {
        DnsType::AXFR
    } else if v == 253 {
        DnsType::MAILB
    } else if v == 254 {
        DnsType::MAILA
    } else if v == 255 {
        DnsType::All
    } else {
        DnsType::Unrecognized(v)
    }
}

impl DnsType {
    /// The 16-bit wire code.
    pub fn to_u16(&self) -> (r: u16)
        ensures
            r == type_code(*self),
    {
        match self {
            DnsType::Address => 1,
            DnsType::NameServer => 2,
            DnsType::MailDestination => 3,
            DnsType::MailForwarder => 4,
            DnsType::CName => 5,
            DnsType::StartOfAuthority => 6,
            DnsType::MailBox => 7,
            DnsType::MailGroup => 8,
            DnsType::MailRename => 9,
            DnsType::Null => 10,
            DnsType::WellKnownService => 11,
            DnsType::Pointer => 12,
            DnsType::HostInformation => 13,
            DnsType::MailboxInformation => 14,
            DnsType::MailExchange => 15,
            DnsType::Text => 16,
            DnsType::AXFR => 252,
            DnsType::MAILB => 253,
            DnsType::MAILA => 254,
            DnsType::All => 255,
            DnsType::Unrecognized(v) => *v,
        }
    }

    /// The record type of wire code `v`.
    pub fn from_u16(v: u16) -> (r: DnsType)
        ensures
            r == type_of(v),
    {
        match v {
            1 => DnsType::Address,
            2 => DnsType::NameServer,
            3 => DnsType::MailDestination,
            4 => DnsType::MailForwarder,
            5 => DnsType::CName,
            6 => DnsType::StartOfAuthority,
            7 => DnsType::MailBox,
            8 => DnsType::MailGroup,
            9 => DnsType::MailRename,
            10 => DnsType::Null,
            11 => DnsType::WellKnownService,
            12 => DnsType::Pointer,
            13 => DnsType::HostInformation,
            14 => DnsType::MailboxInformation,
            15 => DnsType::MailExchange,
            16 => DnsType::Text,
            252 => DnsType::AXFR,
            253 => DnsType::MAILB,
            254 => DnsType::MAILA,
            255 => DnsType::All,
            _ => DnsType::Unrecognized(v),
        }
    }

    /// The wire code as one byte, for codes that fit in one.
    pub fn to_u8(&self) -> (r: u8)
        requires
            type_code(*self) < 256,
        ensures
            r as u16 == type_code(*self),
    {
        self.to_u16() as u8
    }

    /// The record type of the one-byte wire code `v`.
    pub fn from_u8(v: u8) -> (r: DnsType)
        ensures
            r == type_of(v as u16),
    {
        DnsType::from_u16(v as u16)
    }
}

/// The class of a question or a resource record. Codes without a name here are kept as they came.
#[derive(Debug, Clone, Copy, PartialEq, Eq, Structural)]
pub enum DnsClass {
    Internet,
    CSNET,
    CHAOS,
    Hesiod,
    Unrecognized(u16),
}

/// The wire code of each class.
pub open spec fn class_code(t: DnsClass) -> u16 {
    match t {
        DnsClass::Internet => 1,
        DnsClass::CSNET => 2,
        DnsClass::CHAOS => 3,
        DnsClass::Hesiod => 4,
        DnsClass::Unrecognized(v) => v,
    }
}

/// The class that a wire code stands for.
pub open spec fn class_of(v: u16) -> DnsClass {
    if v == 1 {
        DnsClass::Internet
    } else if v == 2 {
        DnsClass::CSNET
    } else if v == 3 {
        DnsClass::CHAOS
    } else if v == 4 {
        DnsClass::Hesiod
    } else {
        DnsClass::Unrecognized(v)
    }
}

impl DnsClass {
    /// The 16-bit wire code.
    pub fn to_u16(&self) -> (r: u16)
        ensures
            r == class_code(*self),
    {
        match self {
            DnsClass::Internet => 1,
            DnsClass::CSNET => 2,
            DnsClass::CHAOS => 3,
            DnsClass::Hesiod => 4,
            DnsClass::Unrecognized(v) => *v,
        }
    }

    /// The class of wire code `v`.
    pub fn from_u16(v: u16) -> (r: DnsClass)
        ensures
            r == class_of(v),
    {
        match v {
            1 => DnsClass::Internet,
            2 => DnsClass::CSNET,
            3 => DnsClass::CHAOS,
            4 => DnsClass::Hesiod,
            _ => DnsClass::Unrecognized(v),
        }
    }

    /// The wire code as one byte, for codes that fit in one.
    pub fn to_u8(&self) -> (r: u8)
        requires
            class_code(*self) < 256,
        ensures
            r as u16 == class_code(*self),
    {
        self.to_u16() as u8
    }

    /// The class of the one-byte wire code `v`.
    pub fn from_u8(v: u8) -> (r: DnsClass)
        ensures
            r == class_of(v as u16),
    {
        DnsClass::from_u16(v as u16)
    }
}

} // verus!
