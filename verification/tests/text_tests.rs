use valueswap::principal::PrincipalId;
use valueswap::text::{contains_text, trims_to_empty};

#[test]
fn contains_text_finds_substrings() {
    assert!(contains_text("ckBTCckETH", "ckETH"));
    assert!(contains_text("ckBTCckETH", "ckBTC"));
    assert!(contains_text("abc", ""));
    assert!(!contains_text("ab", "abc"));
    assert!(!contains_text("ckBTCckETH", "ckUSDC"));
}

#[test]
fn trims_to_empty_checks_for_whitespace_only() {
    assert!(trims_to_empty(""));
    assert!(trims_to_empty("  \t\n"));
    assert!(!trims_to_empty(" a "));
}

#[test]
fn anonymous_principal_text() {
    let anon = PrincipalId::anonymous();
    assert!(anon.is_anonymous());
    assert_eq!(anon.to_text(), candid::Principal::anonymous().to_text());
    assert_eq!(anon.to_text(), "2vxsx-fae");
}

#[test]
fn principal_text_round_trip() {
    let p = PrincipalId::from_text("aaaaa-aa").unwrap();
    assert!(p.as_bytes().is_empty());
    assert_eq!(p.to_text(), "aaaaa-aa");
    let q = PrincipalId::from_slice(&[1, 2, 3]).unwrap();
    let again = PrincipalId::from_text(&q.to_text()).unwrap();
    assert!(again.same_as(&q));
    assert!(PrincipalId::from_text("not a principal").is_none());
}

#[test]
fn principal_from_slice_refuses_long_bytes() {
    assert!(PrincipalId::from_slice(&[7u8; 29]).is_some());
    assert!(PrincipalId::from_slice(&[7u8; 30]).is_none());
}

#[test]
fn principal_debug_text_matches_candid() {
    let p = PrincipalId::from_slice(&[1, 2, 3]).unwrap();
    assert_eq!(p.debug_text(), format!("{:?}", candid::Principal::from_slice(&[1, 2, 3])));
    let anon = PrincipalId::anonymous();
    assert_eq!(anon.debug_text(), format!("{:?}", candid::Principal::anonymous()));
    assert!(anon.debug_text().starts_with("Principal { len: 1, bytes: [4, 0, 0"));
}
