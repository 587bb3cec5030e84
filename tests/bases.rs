use forge_runner::bases::{det_base_in, det_base_out, format_uint, BaseError};
use forge_runner::provider::VerificationProviderType;
use std::str::FromStr;

fn word(n: u64) -> [u8; 32] {
    let mut w = [0u8; 32];
    w[24..].copy_from_slice(&n.to_be_bytes());
    w
}

#[test]
fn output_base_by_name() {
    assert_eq!(det_base_out("10"), Ok(10));
    assert_eq!(det_base_out("dec"), Ok(10));
    assert_eq!(det_base_out("16"), Ok(16));
    assert_eq!(det_base_out("hex"), Ok(16));
    assert_eq!(det_base_out("8"), Err(BaseError::UnknownOutputBase("8".to_string())));
    assert_eq!(BaseError::UnknownOutputBase("8".to_string()).message(), "Provided base is not a valid.");
}

#[test]
fn input_base_detection() {
    assert_eq!(det_base_in("ff", Some("dec".to_string())), Ok(10));
    assert_eq!(det_base_in("ff", Some("hex".to_string())), Ok(16));
    assert_eq!(det_base_in("ff", Some("2".to_string())), Err(BaseError::UnknownInputBase("2".to_string())));
    assert_eq!(BaseError::UnknownInputBase("2".to_string()).message(), "Unknown input base: 2");
    assert_eq!(det_base_in("0x1f", None), Ok(16));
    assert_eq!(det_base_in("1234", None), Err(BaseError::AmbiguousInputBase));
    assert_eq!(det_base_in("ff", None), Ok(16));
    assert_eq!(det_base_in("ABCdef", None), Ok(16));
    assert_eq!(det_base_in("", None), Err(BaseError::AmbiguousInputBase));
}

#[test]
fn uint_formatting() {
    assert_eq!(format_uint(&word(255), 10), Ok("255".to_string()));
    assert_eq!(format_uint(&word(255), 16), Ok("0xff".to_string()));
    assert_eq!(format_uint(&word(0), 16), Ok("0x0".to_string()));
    assert_eq!(format_uint(&word(0), 10), Ok("0".to_string()));
    assert_eq!(format_uint(&[0xff; 32], 10).unwrap().len(), 78);
    assert_eq!(format_uint(&word(1), 8), Err(BaseError::UnknownOutputRadix(8)));
    assert_eq!(BaseError::UnknownOutputRadix(8).message(), "Unknown output base: 8");
    assert_eq!(BaseError::UnknownOutputRadix(4294967295).message(), "Unknown output base: 4294967295");
    assert_eq!(BaseError::UnknownOutputRadix(0).message(), "Unknown output base: 0");
}

#[test]
fn provider_names() {
    assert_eq!(VerificationProviderType::from_str("e"), Ok(VerificationProviderType::Etherscan));
    assert_eq!(VerificationProviderType::from_str("etherscan"), Ok(VerificationProviderType::Etherscan));
    assert_eq!(VerificationProviderType::from_str("s"), Ok(VerificationProviderType::Sourcify));
    assert_eq!(VerificationProviderType::from_str("sourcify"), Ok(VerificationProviderType::Sourcify));
    assert_eq!(VerificationProviderType::from_str("x"), Err("Unknown field: x".to_string()));
    assert_eq!(VerificationProviderType::from_str("Etherscan"), Err("Unknown field: Etherscan".to_string()));
    assert_eq!(VerificationProviderType::from_str(""), Err("Unknown field: ".to_string()));
    for p in [VerificationProviderType::Etherscan, VerificationProviderType::Sourcify] {
        assert_eq!(VerificationProviderType::from_str(&p.to_string()), Ok(p));
    }
    assert_eq!(VerificationProviderType::Etherscan.to_string(), "etherscan");
    assert_eq!(VerificationProviderType::Sourcify.to_string(), "sourcify");
}
