use futuapi::common::{reply_result, security_list, ReplyError, Security};
use futuapi::pb::{QotMarket, RetType};
use futuapi::ProtoId;

#[test]
fn security_from_shanghai_lower_case() {
    let s = Security::from("sh000001");
    assert_eq!(s.market, QotMarket::CnshSecurity);
    assert_eq!(s.code, "000001");
}

#[test]
fn security_from_each_market() {
    assert_eq!(Security::from("HZ399001").market, QotMarket::CnszSecurity);
    assert_eq!(Security::from("hz399001").code, "399001");
    assert_eq!(Security::from("HK00700").market, QotMarket::HkSecurity);
    assert_eq!(Security::from("hK00700").market, QotMarket::HkSecurity);
    assert_eq!(Security::from("Sh600000").market, QotMarket::CnshSecurity);
    let us = Security::from("USAAPL");
    assert_eq!(us.market, QotMarket::Unknown);
    assert_eq!(us.code, "AAPL");
}

#[test]
fn security_from_short_and_non_ascii_text() {
    let s = Security::from("SH");
    assert_eq!(s.market, QotMarket::CnshSecurity);
    assert_eq!(s.code, "");
    let e = Security::from("é00");
    assert_eq!(e.market, QotMarket::Unknown);
    assert_eq!(e.code, "00");
    let c = Security::from("HK腾讯");
    assert_eq!(c.market, QotMarket::HkSecurity);
    assert_eq!(c.code, "腾讯");
}

#[test]
fn security_list_splits_at_commas() {
    let l = security_list("sh000001,HZ399001");
    assert_eq!(l.len(), 2);
    assert_eq!(l[0].market, QotMarket::CnshSecurity);
    assert_eq!(l[0].code, "000001");
    assert_eq!(l[1].market, QotMarket::CnszSecurity);
    assert_eq!(l[1].code, "399001");
}

#[test]
fn security_list_single_and_many() {
    let one = security_list("HK00700");
    assert_eq!(one.len(), 1);
    assert_eq!(one[0].market, QotMarket::HkSecurity);
    assert_eq!(one[0].code, "00700");
    let three = security_list("hk1,sz2,SH3");
    assert_eq!(three.len(), 3);
    assert_eq!(three[1].market, QotMarket::Unknown);
    assert_eq!(three[1].code, "2");
    assert_eq!(three[2].code, "3");
    let trailing = security_list("SH1,SH");
    assert_eq!(trailing.len(), 2);
    assert_eq!(trailing[1].code, "");
}

#[test]
fn market_numbers() {
    assert_eq!(QotMarket::Unknown.to_i32(), 0);
    assert_eq!(QotMarket::HkSecurity.to_i32(), 1);
    assert_eq!(QotMarket::HkFuture.to_i32(), 2);
    assert_eq!(QotMarket::UsSecurity.to_i32(), 11);
    assert_eq!(QotMarket::CnshSecurity.to_i32(), 21);
    assert_eq!(QotMarket::CnszSecurity.to_i32(), 22);
    assert_eq!(QotMarket::SgSecurity.to_i32(), 31);
    assert_eq!(QotMarket::JpSecurity.to_i32(), 41);
}

#[test]
fn proto_id_numbers_roundtrip() {
    let all = [
        ProtoId::NoProto,
        ProtoId::InitConnect,
        ProtoId::GetGlobalState,
        ProtoId::KeepAlive,
        ProtoId::GetUserInfo,
        ProtoId::TrdGetAccList,
        ProtoId::QotGetSecuritySnapshot,
        ProtoId::QotGetUserSecurity,
        ProtoId::QotModifyUserSecurity,
        ProtoId::QotGetUserSecurityGroup,
        ProtoId::QotGetMarketState,
    ];
    for p in all {
        assert_eq!(ProtoId::from_i32(p.to_i32()), Some(p));
    }
    assert_eq!(ProtoId::KeepAlive.to_i32(), 1004);
    assert_eq!(ProtoId::QotGetMarketState.to_i32(), 3223);
    assert_eq!(ProtoId::from_i32(1003), None);
    assert_eq!(ProtoId::from_i32(-1), None);
    assert_eq!(ProtoId::default(), ProtoId::NoProto);
}

#[test]
fn ret_type_numbers() {
    assert_eq!(RetType::from_i32(0), Some(RetType::Succeed));
    assert_eq!(RetType::from_i32(-1), Some(RetType::Failed));
    assert_eq!(RetType::from_i32(-100), Some(RetType::TimeOut));
    assert_eq!(RetType::from_i32(-200), Some(RetType::DisConnect));
    assert_eq!(RetType::from_i32(-400), Some(RetType::Unknown));
    assert_eq!(RetType::from_i32(-500), Some(RetType::Invalid));
    assert_eq!(RetType::from_i32(1), None);
}

#[test]
fn reply_success_gives_payload() {
    assert_eq!(reply_result(0, Some(vec![1, 2])), Ok(vec![1, 2]));
}

#[test]
fn reply_failure_gives_code() {
    assert_eq!(reply_result(-1, Some(5u8)), Err(ReplyError { ret_type: -1 }));
    assert_eq!(reply_result::<u8>(-400, None), Err(ReplyError { ret_type: -400 }));
    assert_eq!(reply_result::<u8>(7, None), Err(ReplyError { ret_type: 7 }));
}
