//! Protocol identifiers and enumerations of the FutuOpenD protocol that the
//! client logic reads.

use vstd::prelude::*;

verus! {

/// Identifier of a request or push type, carried in every packet header.
#[derive(Debug, Clone, Copy, PartialEq, Eq, Structural)]
pub enum ProtoId {
    NoProto,
    InitConnect,
    GetGlobalState,
    KeepAlive,
    GetUserInfo,
    TrdGetAccList,
    QotGetSecuritySnapshot,
    QotGetUserSecurity,
    QotModifyUserSecurity,
    QotGetUserSecurityGroup,
    QotGetMarketState,
}

/// The number that stands for each protocol identifier on the wire.
pub open spec fn proto_id_value(p: ProtoId) -> i32 {
    match p {
        ProtoId::NoProto => 0,
        ProtoId::InitConnect => 1001,
        ProtoId::GetGlobalState => 1002,
        ProtoId::KeepAlive => 1004,
        ProtoId::GetUserInfo => 1005,
        ProtoId::TrdGetAccList => 2001,
        ProtoId::QotGetSecuritySnapshot => 3203,
        ProtoId::QotGetUserSecurity => 3213,
        ProtoId::QotModifyUserSecurity => 3214,
        ProtoId::QotGetUserSecurityGroup => 3222,
        ProtoId::QotGetMarketState => 3223,
    }
}

/// The protocol identifier that a wire number stands for, if any.
pub open spec fn proto_id_of(v: i32) -> Option<ProtoId> {
    if v == 0 {
        Some(ProtoId::NoProto)
    } else if v == 1001 {
        Some(ProtoId::InitConnect)
    } else if v == 1002 {
        Some(ProtoId::GetGlobalState)
    } else if v == 1004 {
        Some(ProtoId::KeepAlive)
    } else if v == 1005 {
        Some(ProtoId::GetUserInfo)
    } else if v == 2001 {
        Some(ProtoId::TrdGetAccList)
    } else if v == 3203 {
        Some(ProtoId::QotGetSecuritySnapshot)
    } else if v == 3213 {
        Some(ProtoId::QotGetUserSecurity)
    } else if v == 3214 {
        Some(ProtoId::QotModifyUserSecurity)
    } else if v == 3222 {
        Some(ProtoId::QotGetUserSecurityGroup)
    } else if v == 3223 {
        Some(ProtoId::QotGetMarketState)
    } else {
        None
    }
}

impl ProtoId {
    /// The wire number of this identifier.
    pub fn to_i32(self) -> (v: i32)
        ensures
            v == proto_id_value(self),
    {
        match self {
            ProtoId::NoProto => 0,
            ProtoId::InitConnect => 1001,
            ProtoId::GetGlobalState => 1002,
            ProtoId::KeepAlive => 1004,
            ProtoId::GetUserInfo => 1005,
            ProtoId::TrdGetAccList => 2001,
            ProtoId::QotGetSecuritySnapshot => 3203,
            ProtoId::QotGetUserSecurity => 3213,
            ProtoId::QotModifyUserSecurity => 3214,
            ProtoId::QotGetUserSecurityGroup => 3222,
            ProtoId::QotGetMarketState => 3223,
        }
    }

    /// The identifier that a wire number stands for; `None` for a number
    /// that names no identifier.
    pub fn from_i32(v: i32) -> (r: Option<ProtoId>)
        ensures
            r == proto_id_of(v),
    {
        if v == 0 {
            Some(ProtoId::NoProto)
        } else if v == 1001 {
            Some(ProtoId::InitConnect)
        } else if v == 1002 {
            Some(ProtoId::GetGlobalState)
        } else if v == 1004 {
            Some(ProtoId::KeepAlive)
        } else if v == 1005 {
            Some(ProtoId::GetUserInfo)
        } else if v == 2001 {
            Some(ProtoId::TrdGetAccList)
        } else if v == 3203 {
            Some(ProtoId::QotGetSecuritySnapshot)
        } else if v == 3213 {
            Some(ProtoId::QotGetUserSecurity)
        } else if v == 3214 {
            Some(ProtoId::QotModifyUserSecurity)
        } else if v == 3222 {
            Some(ProtoId::QotGetUserSecurityGroup)
        } else if v == 3223 {
            Some(ProtoId::QotGetMarketState)
        } else {
            None
        }
    }
}

impl Default for ProtoId {
    fn default() -> (p: ProtoId)
        ensures
            p == ProtoId::NoProto,
    {
        ProtoId::NoProto
    }
}

/// Every protocol identifier is read back from its own wire number.
pub proof fn lemma_proto_id_value_then_of(p: ProtoId)
    ensures
        proto_id_of(proto_id_value(p)) == Some(p),
{
}

/// A wire number that is read as an identifier is that identifier's number.
pub proof fn lemma_proto_id_of_then_value(v: i32)
    ensures
        proto_id_of(v) matches Some(q) ==> proto_id_value(q) == v,
{
}

/// Outcome that a reply reports.
#[derive(Debug, Clone, Copy, PartialEq, Eq, Structural)]
pub enum RetType {
    Succeed,
    Failed,
    TimeOut,
    DisConnect,
    Unknown,
    Invalid,
}

/// The outcome that a wire number stands for, if any.
pub open spec fn ret_type_of(v: i32) -> Option<RetType> {
    if v == 0 {
        Some(RetType::Succeed)
    } else if v == -1 {
        Some(RetType::Failed)
    } else if v == -100 {
        Some(RetType::TimeOut)
    } else if v == -200 {
        Some(RetType::DisConnect)
    } else if v == -400 {
        Some(RetType::Unknown)
    } else if v == -500 {
        Some(RetType::Invalid)
    } else {
        None
    }
}

impl RetType {
    /// The outcome that a wire number stands for; `None` for a number that
    /// names no outcome.
    pub fn from_i32(v: i32) -> (r: Option<RetType>)
        ensures
            r == ret_type_of(v),
    {
        if v == 0 {
            Some(RetType::Succeed)
        } else if v == -1 {
            Some(RetType::Failed)
        } else if v == -100 {
            Some(RetType::TimeOut)
        } else if v == -200 {
            Some(RetType::DisConnect)
        } else if v == -400 {
            Some(RetType::Unknown)
        } else if v == -500 {
            Some(RetType::Invalid)
        } else {
            None
        }
    }
}

/// Market of a security.
#[derive(Debug, Clone, Copy, PartialEq, Eq, Structural)]
pub enum QotMarket {
    Unknown,
    HkSecurity,
    HkFuture,
    UsSecurity,
    CnshSecurity,
    CnszSecurity,
    SgSecurity,
    JpSecurity,
}

/// The number that stands for each market on the wire.
pub open spec fn market_value(m: QotMarket) -> i32 {
    match m {
        QotMarket::Unknown => 0,
        QotMarket::HkSecurity => 1,
        QotMarket::HkFuture => 2,
        QotMarket::UsSecurity => 11,
        QotMarket::CnshSecurity => 21,
        QotMarket::CnszSecurity => 22,
        QotMarket::SgSecurity => 31,
        QotMarket::JpSecurity => 41,
    }
}

impl QotMarket {
    /// The wire number of this market.
    pub fn to_i32(self) -> (v: i32)
        ensures
            v == market_value(self),
    {
        match self {
            QotMarket::Unknown => 0,
            QotMarket::HkSecurity => 1,
            QotMarket::HkFuture => 2,
            QotMarket::UsSecurity => 11,
            QotMarket::CnshSecurity => 21,
            QotMarket::CnszSecurity => 22,
            QotMarket::SgSecurity => 31,
            QotMarket::JpSecurity => 41,
        }
    }
}

/// The wire numbers of the protocol identifiers, as the FutuOpenD protocol
/// fixes them.
pub proof fn lemma_proto_id_numbers()
    ensures
        proto_id_value(ProtoId::NoProto) == 0,
        proto_id_value(ProtoId::InitConnect) == 1001,
        proto_id_value(ProtoId::GetGlobalState) == 1002,
        proto_id_value(ProtoId::KeepAlive) == 1004,
        proto_id_value(ProtoId::GetUserInfo) == 1005,
        proto_id_value(ProtoId::TrdGetAccList) == 2001,
        proto_id_value(ProtoId::QotGetSecuritySnapshot) == 3203,
        proto_id_value(ProtoId::QotGetUserSecurity) == 3213,
        proto_id_value(ProtoId::QotModifyUserSecurity) == 3214,
        proto_id_value(ProtoId::QotGetUserSecurityGroup) == 3222,
        proto_id_value(ProtoId::QotGetMarketState) == 3223,
{
}

/// The identifier that each wire number is read as: the protocol's own
/// numbers name their identifiers, every other number names none.
pub proof fn lemma_proto_id_of_numbers(v: i32)
    ensures
        proto_id_of(0) == Some(ProtoId::NoProto),
        proto_id_of(1001) == Some(ProtoId::InitConnect),
        proto_id_of(1002) == Some(ProtoId::GetGlobalState),
        proto_id_of(1004) == Some(ProtoId::KeepAlive),
        proto_id_of(1005) == Some(ProtoId::GetUserInfo),
        proto_id_of(2001) == Some(ProtoId::TrdGetAccList),
        proto_id_of(3203) == Some(ProtoId::QotGetSecuritySnapshot),
        proto_id_of(3213) == Some(ProtoId::QotGetUserSecurity),
        proto_id_of(3214) == Some(ProtoId::QotModifyUserSecurity),
        proto_id_of(3222) == Some(ProtoId::QotGetUserSecurityGroup),
        proto_id_of(3223) == Some(ProtoId::QotGetMarketState),
        !(v == 0 || v == 1001 || v == 1002 || v == 1004 || v == 1005 || v == 2001 || v == 3203
            || v == 3213 || v == 3214 || v == 3222 || v == 3223) ==> proto_id_of(v) is None,
{
}

/// The wire numbers of the markets, as the FutuOpenD protocol fixes them.
pub proof fn lemma_market_numbers()
    ensures
        market_value(QotMarket::Unknown) == 0,
        market_value(QotMarket::HkSecurity) == 1,
        market_value(QotMarket::HkFuture) == 2,
        market_value(QotMarket::UsSecurity) == 11,
        market_value(QotMarket::CnshSecurity) == 21,
        market_value(QotMarket::CnszSecurity) == 22,
        market_value(QotMarket::SgSecurity) == 31,
        market_value(QotMarket::JpSecurity) == 41,
{
}

/// The outcome that each wire number is read as: 0 is success, -1 failure,
/// -100 time-out, -200 disconnection, -400 unknown, -500 invalid, and every
/// other number names no outcome.
pub proof fn lemma_ret_type_numbers(v: i32)
    ensures
        ret_type_of(0) == Some(RetType::Succeed),
        ret_type_of(-1i32) == Some(RetType::Failed),
        ret_type_of(-100i32) == Some(RetType::TimeOut),
        ret_type_of(-200i32) == Some(RetType::DisConnect),
        ret_type_of(-400i32) == Some(RetType::Unknown),
        ret_type_of(-500i32) == Some(RetType::Invalid),
        !(v == 0 || v == -1 || v == -100 || v == -200 || v == -400 || v == -500) ==> ret_type_of(v) is None,
        (ret_type_of(v) == Some(RetType::Succeed)) <==> v == 0,
{
}

} // verus!
