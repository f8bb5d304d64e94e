//! The errors that parsing a link as an external URL can give, their names
//! (as stored in the cache and in json output) and their messages.

use vstd::prelude::*;
use crate::text::str_eq;

verus! {

/// The kinds of `url::ParseError`, one variant for each variant of that enum.
#[derive(Clone, Copy, Debug, PartialEq, Eq, Structural)]
pub enum UrlError {
    EmptyHost,
    IdnaError,
    InvalidPort,
    InvalidIpv4Address,
    InvalidIpv6Address,
    InvalidDomainCharacter,
    RelativeUrlWithoutBase,
    RelativeUrlWithCannotBeABaseBase,
    SetHostOnCannotBeABaseUrl,
    Overflow,
}

impl View for UrlError {
    type V = UrlError;

    open spec fn view(&self) -> UrlError {
        *self
    }
}

/// The name of an error kind: the name of its variant.
pub open spec fn url_error_name(e: UrlError) -> Seq<char> {
    match e {
        UrlError::EmptyHost => "EmptyHost"@,
        UrlError::IdnaError => "IdnaError"@,
        UrlError::InvalidPort => "InvalidPort"@,
        UrlError::InvalidIpv4Address => "InvalidIpv4Address"@,
        UrlError::InvalidIpv6Address => "InvalidIpv6Address"@,
        UrlError::InvalidDomainCharacter => "InvalidDomainCharacter"@,
        UrlError::RelativeUrlWithoutBase => "RelativeUrlWithoutBase"@,
        UrlError::RelativeUrlWithCannotBeABaseBase => "RelativeUrlWithCannotBeABaseBase"@,
        UrlError::SetHostOnCannotBeABaseUrl => "SetHostOnCannotBeABaseUrl"@,
        UrlError::Overflow => "Overflow"@,
    }
}

/// The error kind whose name is `s`, if any.
pub open spec fn url_error_of_name(s: Seq<char>) -> Option<UrlError> {
    if s == "EmptyHost"@ {
        Some(UrlError::EmptyHost)
    } else if s == "IdnaError"@ {
        Some(UrlError::IdnaError)
    } else if s == "InvalidPort"@ {
        Some(UrlError::InvalidPort)
    } else if s == "InvalidIpv4Address"@ {
        Some(UrlError::InvalidIpv4Address)
    } else if s == "InvalidIpv6Address"@ {
        Some(UrlError::InvalidIpv6Address)
    } else if s == "InvalidDomainCharacter"@ {
        Some(UrlError::InvalidDomainCharacter)
    } else if s == "RelativeUrlWithoutBase"@ {
        Some(UrlError::RelativeUrlWithoutBase)
    } else if s == "RelativeUrlWithCannotBeABaseBase"@ {
        Some(UrlError::RelativeUrlWithCannotBeABaseBase)
    } else if s == "SetHostOnCannotBeABaseUrl"@ {
        Some(UrlError::SetHostOnCannotBeABaseUrl)
    } else if s == "Overflow"@ {
        Some(UrlError::Overflow)
    } else {
        None
    }
}

/// The message that `url::ParseError` displays for each kind.
pub open spec fn url_error_description(e: UrlError) -> Seq<char> {
    match e {
        UrlError::EmptyHost => "empty host"@,
        UrlError::IdnaError => "invalid international domain name"@,
        UrlError::InvalidPort => "invalid port number"@,
        UrlError::InvalidIpv4Address => "invalid IPv4 address"@,
        UrlError::InvalidIpv6Address => "invalid IPv6 address"@,
        UrlError::InvalidDomainCharacter => "invalid domain character"@,
        UrlError::RelativeUrlWithoutBase => "relative URL without a base"@,
        UrlError::RelativeUrlWithCannotBeABaseBase => "relative URL with a cannot-be-a-base base"@,
        UrlError::SetHostOnCannotBeABaseUrl => "a cannot-be-a-base URL doesn\u{2019}t have a host to set"@,
        UrlError::Overflow => "URLs more than 4 GB are not supported"@,
    }
}

/// The name of an error kind, as it is stored.
pub fn str_from_url_error(e: &UrlError) -> (res: &'static str)
    ensures
        res@ == url_error_name(*e),
{
    match e {
        UrlError::EmptyHost => "EmptyHost",
        UrlError::IdnaError => "IdnaError",
        UrlError::InvalidPort => "InvalidPort",
        UrlError::InvalidIpv4Address => "InvalidIpv4Address",
        UrlError::InvalidIpv6Address => "InvalidIpv6Address",
        UrlError::InvalidDomainCharacter => "InvalidDomainCharacter",
        UrlError::RelativeUrlWithoutBase => "RelativeUrlWithoutBase",
        UrlError::RelativeUrlWithCannotBeABaseBase => "RelativeUrlWithCannotBeABaseBase",
        UrlError::SetHostOnCannotBeABaseUrl => "SetHostOnCannotBeABaseUrl",
        UrlError::Overflow => "Overflow",
    }
}

/// The error kind named `s`, or `None` when `s` names none.
pub fn url_error_from_str(s: &str) -> (res: Option<UrlError>)
    ensures
        res == url_error_of_name(s@),
{
    if str_eq(s, "EmptyHost") {
        Some(UrlError::EmptyHost)
    } else if str_eq(s, "IdnaError") {
        Some(UrlError::IdnaError)
    } else if str_eq(s, "InvalidPort") {
        Some(UrlError::InvalidPort)
    } else if str_eq(s, "InvalidIpv4Address") {
        Some(UrlError::InvalidIpv4Address)
    } else if str_eq(s, "InvalidIpv6Address") {
        Some(UrlError::InvalidIpv6Address)
    } else if str_eq(s, "InvalidDomainCharacter") {
        Some(UrlError::InvalidDomainCharacter)
    } else if str_eq(s, "RelativeUrlWithoutBase") {
        Some(UrlError::RelativeUrlWithoutBase)
    } else if str_eq(s, "RelativeUrlWithCannotBeABaseBase") {
        Some(UrlError::RelativeUrlWithCannotBeABaseBase)
    } else if str_eq(s, "SetHostOnCannotBeABaseUrl") {
        Some(UrlError::SetHostOnCannotBeABaseUrl)
    } else if str_eq(s, "Overflow") {
        Some(UrlError::Overflow)
    } else {
        None
    }
}

/// The message of an error kind: what `url::ParseError`'s `Display` writes
/// for the same variant, as its source gives it.
#[verifier::external_body]
pub(crate) fn url_error_message(e: &UrlError) -> (res: String)
    ensures
        res@ == url_error_description(*e),
{
    let outside = match e {
        UrlError::EmptyHost => url::ParseError::EmptyHost,
        UrlError::IdnaError => url::ParseError::IdnaError,
        UrlError::InvalidPort => url::ParseError::InvalidPort,
        UrlError::InvalidIpv4Address => url::ParseError::InvalidIpv4Address,
        UrlError::InvalidIpv6Address => url::ParseError::InvalidIpv6Address,
        UrlError::InvalidDomainCharacter => url::ParseError::InvalidDomainCharacter,
        UrlError::RelativeUrlWithoutBase => url::ParseError::RelativeUrlWithoutBase,
        UrlError::RelativeUrlWithCannotBeABaseBase => url::ParseError::RelativeUrlWithCannotBeABaseBase,
        UrlError::SetHostOnCannotBeABaseUrl => url::ParseError::SetHostOnCannotBeABaseUrl,
        UrlError::Overflow => url::ParseError::Overflow,
    };
    format!("{}", outside)
}

/// Reading back the stored name of an error kind gives that kind again.
pub proof fn law_url_error_name_roundtrip(e: UrlError)
    ensures
        url_error_of_name(url_error_name(e)) == Some(e),
{
    reveal_strlit("EmptyHost");
    reveal_strlit("IdnaError");
    reveal_strlit("InvalidPort");
    reveal_strlit("InvalidIpv4Address");
    reveal_strlit("InvalidIpv6Address");
    reveal_strlit("InvalidDomainCharacter");
    reveal_strlit("RelativeUrlWithoutBase");
    reveal_strlit("RelativeUrlWithCannotBeABaseBase");
    reveal_strlit("SetHostOnCannotBeABaseUrl");
    reveal_strlit("Overflow");
    let names = seq![
        "EmptyHost"@, "IdnaError"@, "InvalidPort"@, "InvalidIpv4Address"@, "InvalidIpv6Address"@,
        "InvalidDomainCharacter"@, "RelativeUrlWithoutBase"@, "RelativeUrlWithCannotBeABaseBase"@,
        "SetHostOnCannotBeABaseUrl"@, "Overflow"@,
    ];
    assert(names[0][0] == 'E' && names[1][0] == 'I' && names[5][0] == 'I' && names[6][0] == 'R'
        && names[7][0] == 'R' && names[8][0] == 'S' && names[9][0] == 'O');
    assert(names[1][1] == 'd' && names[2][1] == 'n' && names[3][1] == 'n' && names[4][1] == 'n');
    assert(names[3][10] == '4' && names[4][10] == '6');
    assert(names[2].len() == 11 && names[3].len() == 18 && names[5].len() == 22);
    assert(names[6].len() == 22 && names[7].len() == 32);
    assert forall|i: int, j: int| 0 <= i < j < 10 implies names[i] != names[j] by {
        if names[i] == names[j] {
            assert(names[i].len() == names[j].len());
            assert(names[i][0] == names[j][0]);
            assert(names[i][1] == names[j][1]);
            if names[i].len() > 10 {
                assert(names[i][10] == names[j][10]);
            }
        }
    }
    assert(url_error_name(e) == names[match e {
        UrlError::EmptyHost => 0int,
        UrlError::IdnaError => 1,
        UrlError::InvalidPort => 2,
        UrlError::InvalidIpv4Address => 3,
        UrlError::InvalidIpv6Address => 4,
        UrlError::InvalidDomainCharacter => 5,
        UrlError::RelativeUrlWithoutBase => 6,
        UrlError::RelativeUrlWithCannotBeABaseBase => 7,
        UrlError::SetHostOnCannotBeABaseUrl => 8,
        UrlError::Overflow => 9,
    }]);
}

/// A stored name that reads back as an error kind is that kind's name: no
/// other text is read as a kind.
pub proof fn law_url_error_of_name_exact(s: Seq<char>)
    ensures
        url_error_of_name(s) matches Some(e) ==> url_error_name(e) == s,
{
}

} // verus!
