use vstd::prelude::*;
use vstd::string::*;
use crate::text::str_equals;

verus! {

/// The service that verifies contract sources.
#[derive(Debug, Clone, Copy, PartialEq, Eq, Structural)]
pub enum VerificationProviderType {
    Etherscan,
    Sourcify,
}

/// The provider a name stands for: "e" or "etherscan", "s" or "sourcify".
pub open spec fn provider_of_name(s: Seq<char>) -> Option<VerificationProviderType> {
    if s == "e"@ || s == "etherscan"@ {
        Some(VerificationProviderType::Etherscan)
    } else if s == "s"@ || s == "sourcify"@ {
        Some(VerificationProviderType::Sourcify)
    } else {
        None
    }
}

/// The name of a provider.
pub open spec fn provider_name(p: VerificationProviderType) -> Seq<char> {
    match p {
        VerificationProviderType::Etherscan => "etherscan"@,
        VerificationProviderType::Sourcify => "sourcify"@,
    }
}

impl VerificationProviderType {
    /// Reads a provider name; the error names the unknown field.
    pub fn parse(s: &str) -> (r: Result<VerificationProviderType, String>)
        ensures
            provider_of_name(s@) is Some ==> r == Ok::<VerificationProviderType, String>(provider_of_name(s@)->0),
            provider_of_name(s@) is None ==> r is Err && r->Err_0@ == "Unknown field: "@ + s@,
    {
        if str_equals(s, "e") || str_equals(s, "etherscan") {
            Ok(VerificationProviderType::Etherscan)
        } else if str_equals(s, "s") || str_equals(s, "sourcify") {
            Ok(VerificationProviderType::Sourcify)
        } else {
            Err(String::from_str("Unknown field: ").concat(s))
        }
    }

    /// The name of the provider.
    pub fn to_string(&self) -> (r: String)
        ensures
            r@ == provider_name(*self),
    {
        match self {
            VerificationProviderType::Etherscan => String::from_str("etherscan"),
            VerificationProviderType::Sourcify => String::from_str("sourcify"),
        }
    }
}

impl std::str::FromStr for VerificationProviderType {
    type Err = String;

    fn from_str(s: &str) -> (r: Result<VerificationProviderType, String>)
        ensures
            provider_of_name(s@) is Some ==> r == Ok::<VerificationProviderType, String>(provider_of_name(s@)->0),
            provider_of_name(s@) is None ==> r is Err && r->Err_0@ == "Unknown field: "@ + s@,
    {
        VerificationProviderType::parse(s)
    }
}

/// Reading a provider's name gives the provider back.
pub proof fn lemma_provider_name_round_trip(p: VerificationProviderType)
    ensures
        provider_of_name(provider_name(p)) == Some(p),
{
    reveal_strlit("etherscan");
    reveal_strlit("sourcify");
    reveal_strlit("e");
    reveal_strlit("s");
    assert("etherscan"@.len() != "e"@.len());
    assert("sourcify"@.len() != "s"@.len());
    assert("sourcify"@.len() != "etherscan"@.len());
    assert("sourcify"@ != "e"@);
}

} // verus!
