//! Where the server is reached, and the certificate that it shows.
use crate::text;
use vstd::prelude::*;
use vstd::string::*;

verus! {

// ---------------------------------------------------------------------------
// Names

/// The host that a person has set, without white space and brackets round it.
pub open spec fn configured(host: Seq<char>) -> Seq<char> {
    let said = text::trimmed(host);
    if text::begins_with(said, "["@) && text::finishes_with(said.skip(1), "]"@) {
        said.subrange(1, said.len() - 1)
    } else {
        said
    }
}

/// The host that a person has set, without white space and brackets round it.
pub fn configured_host<'a>(host: &'a str) -> (r: &'a str)
    ensures
        r@ == configured(host@),
{
    let said = text::trim(host);
    proof {
        reveal_strlit("[");
        reveal_strlit("]");
    }
    if let Some(rest) = text::strip_prefix(said, "[") {
        assert(rest@ == said@.skip(1));
        if let Some(inner) = text::strip_suffix(rest, "]") {
            assert(inner@ == said@.subrange(1, said@.len() - 1));
            return inner;
        }
    }
    said
}

/// What a host is, as an address.
#[derive(Clone, Copy, Debug, PartialEq, Eq, Structural)]
pub enum HostAddress {
    /// It is no address.
    Name,
    /// An address that stands for every one of the machine.
    Unspecified,
    /// One address.
    Address,
}

/// The names that lead to the machine itself.
pub open spec fn local_names() -> Seq<Seq<char>> {
    seq!["localhost"@, "127.0.0.1"@, "::1"@]
}

/// The names that the certificate is for: those of the machine itself, and the host that is set,
/// where it says anything.
pub open spec fn certificate_names(host: Seq<char>, address: HostAddress) -> Seq<Seq<char>> {
    let name = configured(host);
    let says = match address {
        HostAddress::Name => name.len() > 0 && name != "*"@,
        HostAddress::Unspecified => false,
        HostAddress::Address => true,
    };
    if says && !local_names().contains(name) {
        local_names().push(name)
    } else {
        local_names()
    }
}

/// The names that the certificate is for; `address` tells what the configured host is.
pub fn tls_subject_alt_names(host: &str, address: HostAddress) -> (r: Vec<String>)
    ensures
        text::views(r@) == certificate_names(host@, address),
{
    let names = text::with(text::no_texts(), "localhost");
    let names = text::with(names, "127.0.0.1");
    let names = text::with(names, "::1");
    assert(text::views(names@) == local_names());
    let name = configured_host(host);
    let says = match address {
        HostAddress::Name => name.unicode_len() > 0 && !text::same(name, "*"),
        HostAddress::Unspecified => false,
        HostAddress::Address => true,
    };
    let known = text::same(name, "localhost") || text::same(name, "127.0.0.1") || text::same(
        name,
        "::1",
    );
    proof {
        let all = local_names();
        assert(all[0] == "localhost"@ && all[1] == "127.0.0.1"@ && all[2] == "::1"@);
        assert(known == all.contains(name@));
    }
    if says && !known {
        text::with(names, name)
    } else {
        names
    }
}

// ---------------------------------------------------------------------------
// Certificates

/// Whether a name is made of ASCII characters alone, as every address is.
pub open spec fn is_plain(name: Seq<char>) -> bool {
    forall|i: int| 0 <= i < name.len() ==> (#[trigger] name[i] as u32) < 128
}

/// Whether a certificate can be for names.
pub open spec fn certifiable(names: Seq<Seq<char>>) -> bool {
    forall|i: int| 0 <= i < names.len() ==> is_plain(#[trigger] names[i])
}

/// The first name at or after the `i`th that no certificate can be for.
pub open spec fn foreign_name(names: Seq<Seq<char>>, i: int) -> Seq<char>
    decreases names.len() - i,
{
    if i >= names.len() {
        Seq::empty()
    } else if !is_plain(names[i]) {
        names[i]
    } else {
        foreign_name(names, i + 1)
    }
}

/// What a certificate says, before it is signed.
#[verifier::external_type_specification]
#[verifier::external_body]
pub struct ExCertificateParams(rcgen::CertificateParams);

/// A private key with its public one.
#[verifier::external_type_specification]
#[verifier::external_body]
pub struct ExKeyPair(rcgen::KeyPair);

/// What `rcgen::CertificateParams::new` makes of names that are all ASCII.
pub uninterp spec fn params_of(names: Seq<Seq<char>>) -> rcgen::CertificateParams;

/// What `rcgen::KeyPair::serialize_der` makes of a key.
pub uninterp spec fn key_der(key: rcgen::KeyPair) -> Seq<u8>;

/// Whether `rcgen::CertificateParams::self_signed` may make a certificate out of what it says and the
/// key that signs it.
pub uninterp spec fn certifies(
    certificate: Seq<u8>,
    params: rcgen::CertificateParams,
    key: rcgen::KeyPair,
) -> bool;

/// `rcgen::CertificateParams::new`: what a certificate for some names says. There is one where every
/// name is ASCII, and the names alone decide it; else the failure shows the first that is not.
#[verifier::external_body]
fn certificate_params(names: Vec<String>) -> (r: Result<rcgen::CertificateParams, String>)
    ensures
        match r {
            Ok(params) => certifiable(text::views(names@)) && params == params_of(
                text::views(names@),
            ),
            Err(m) => !certifiable(text::views(names@)) && m@ == "Invalid IA5String: '"@
                + foreign_name(text::views(names@), 0) + "'"@,
        },
{
    rcgen::CertificateParams::new(names).map_err(|error| error.to_string())
}

/// `rcgen::KeyPair::generate`: a new key, and its private part in the form that
/// `rcgen::KeyPair::serialize_der` gives it, which is never empty. Which key it is, and whether there
/// is one, is left to chance.
#[verifier::external_body]
fn new_key() -> (r: Result<(rcgen::KeyPair, Vec<u8>), String>)
    ensures
        r matches Ok(pair) ==> pair.1@ == key_der(pair.0) && pair.1@.len() > 0,
{
    match rcgen::KeyPair::generate() {
        Ok(key) => {
            let bytes = key.serialize_der();
            Ok((key, bytes))
        },
        Err(error) => Err(error.to_string()),
    }
}

/// `rcgen::CertificateParams::self_signed`: a certificate that says what `params` does, signed by its
/// own key. It is never empty. Chance goes into the signature, so two of one key may differ.
#[verifier::external_body]
fn self_signed(params: &rcgen::CertificateParams, key: &rcgen::KeyPair) -> (r: Result<
    Vec<u8>,
    String,
>)
    ensures
        r matches Ok(bytes) ==> certifies(bytes@, *params, *key) && bytes@.len() > 0,
{
    match params.self_signed(key) {
        Ok(certificate) => Ok(certificate.der().to_vec()),
        Err(error) => Err(error.to_string()),
    }
}

/// What the server shows who it is with.
#[derive(Debug)]
pub struct TlsMaterial {
    pub certificate_der: Vec<u8>,
    pub private_key_der: Vec<u8>,
}

/// What a person is told where there can be no certificate.
pub open spec fn unconfigured(error: Seq<char>) -> Seq<char> {
    "cannot configure self-signed HTTPS certificate: "@ + error
}

/// What a person is told where there is no key.
pub open spec fn keyless(error: Seq<char>) -> Seq<char> {
    "cannot generate HTTPS private key: "@ + error
}

/// What a person is told where the certificate could not be signed.
pub open spec fn unsigned(error: Seq<char>) -> Seq<char> {
    "cannot generate self-signed HTTPS certificate: "@ + error
}

/// A certificate with its key, by what came of making them.
pub fn tls_material_with(key: Result<Vec<u8>, String>, certificate: Result<Vec<u8>, String>) -> (r:
    Result<TlsMaterial, String>)
    ensures
        match (key, certificate) {
            (Err(e), _) => r matches Err(m) && m@ == keyless(e@),
            (_, Err(e)) => r matches Err(m) && m@ == unsigned(e@),
            (Ok(k), Ok(c)) => r matches Ok(t) && t.private_key_der == k && t.certificate_der == c,
        },
{
    match key {
        Err(e) => Err(text::cat2("cannot generate HTTPS private key: ", &e)),
        Ok(private_key_der) => match certificate {
            Err(e) => Err(text::cat2("cannot generate self-signed HTTPS certificate: ", &e)),
            Ok(certificate_der) => Ok(TlsMaterial { certificate_der, private_key_der }),
        },
    }
}

/// What the certificate for a host says; `address` tells what the host is. There is none where a name
/// that it is for is not ASCII.
pub fn tls_certificate_params(host: &str, address: HostAddress) -> (r: Result<
    rcgen::CertificateParams,
    String,
>)
    ensures
        match r {
            Ok(params) => certifiable(certificate_names(host@, address)) && params == params_of(
                certificate_names(host@, address),
            ),
            Err(m) => !certifiable(certificate_names(host@, address)) && m@ == unconfigured(
                "Invalid IA5String: '"@ + foreign_name(certificate_names(host@, address), 0) + "'"@,
            ),
        },
{
    match certificate_params(tls_subject_alt_names(host, address)) {
        Ok(params) => Ok(params),
        Err(e) => Err(text::cat2("cannot configure self-signed HTTPS certificate: ", &e)),
    }
}

/// Whether a certificate is for names, and signed by the key that stands beside it.
pub open spec fn certified(material: TlsMaterial, names: Seq<Seq<char>>) -> bool {
    exists|key: rcgen::KeyPair|
        {
            &&& material.private_key_der@ == #[trigger] key_der(key)
            &&& certifies(material.certificate_der@, params_of(names), key)
        }
}

/// A new certificate for a host. There is none where a name that it is for is not ASCII; else chance
/// decides what the key and the certificate are, and whether they could be made.
pub fn generate_tls_material(host: &str, address: HostAddress) -> (r: Result<TlsMaterial, String>)
    ensures
        match r {
            Ok(t) => {
                &&& certifiable(certificate_names(host@, address))
                &&& certified(t, certificate_names(host@, address))
                &&& t.certificate_der@.len() > 0
                &&& t.private_key_der@.len() > 0
            },
            Err(m) => if certifiable(certificate_names(host@, address)) {
                ||| exists|e: Seq<char>| m@ == #[trigger] keyless(e)
                ||| exists|e: Seq<char>| m@ == #[trigger] unsigned(e)
            } else {
                m@ == unconfigured(
                    "Invalid IA5String: '"@ + foreign_name(certificate_names(host@, address), 0)
                        + "'"@,
                )
            },
        },
{
    let params = match tls_certificate_params(host, address) {
        Ok(params) => params,
        Err(e) => {
            return Err(e);
        },
    };
    match new_key() {
        Ok((key, private_key_der)) => {
            let certificate = self_signed(&params, &key);
            let ghost made = certificate;
            let ghost names = certificate_names(host@, address);
            let r = tls_material_with(Ok(private_key_der), certificate);
            proof {
                match made {
                    Ok(c) => {
                        assert(r->Ok_0.private_key_der@ == key_der(key));
                        assert(certified(r->Ok_0, names));
                    },
                    Err(e) => {
                        assert(r->Err_0@ == unsigned(e@));
                    },
                }
            }
            r
        },
        Err(e) => {
            let r = tls_material_with(Err(e), Err(String::new()));
            assert(r->Err_0@ == keyless(e@));
            r
        },
    }
}

// ---------------------------------------------------------------------------
// Addresses

/// An address that the server listens at.
#[derive(Debug)]
pub struct BoundAddress {
    /// The address as text.
    pub ip: String,
    /// Whether it is one of the longer kind.
    pub v6: bool,
    /// Whether it stands for every address of the machine.
    pub unspecified: bool,
    pub port: u16,
}

/// How a person reaches the server.
pub open spec fn origin_of(scheme: Seq<char>, address: BoundAddress) -> Seq<char> {
    let ip = if !address.unspecified {
        address.ip@
    } else if address.v6 {
        "::1"@
    } else {
        "127.0.0.1"@
    };
    let host = if address.v6 {
        "["@ + ip + "]"@
    } else {
        ip
    };
    scheme + "://"@ + host + ":"@ + text::decimal(address.port as nat)
}

/// How a person reaches the server.
pub fn display_origin(scheme: &str, address: &BoundAddress) -> (s: String)
    ensures
        s@ == origin_of(scheme@, *address),
{
    let ip = if !address.unspecified {
        address.ip.as_str()
    } else if address.v6 {
        "::1"
    } else {
        "127.0.0.1"
    };
    let host = if address.v6 {
        text::cat3("[", ip, "]")
    } else {
        ip.to_owned()
    };
    text::cat5(scheme, "://", &host, ":", &text::to_decimal(address.port as u64))
}

/// What a person is told of where the server is reached.
pub fn served_lines(http_origin: &str, https_origin: &str) -> (r: Vec<String>)
    ensures
        text::views(r@) == seq![
            "HTTP API: "@ + http_origin@ + "/api"@,
            "HTTP Web: "@ + http_origin@ + "/"@,
            "HTTPS API: "@ + https_origin@ + "/api"@,
            "HTTPS Web: "@ + https_origin@ + "/"@,
        ],
{
    let r = text::with(text::no_texts(), &text::cat3("HTTP API: ", http_origin, "/api"));
    let r = text::with(r, &text::cat3("HTTP Web: ", http_origin, "/"));
    let r = text::with(r, &text::cat3("HTTPS API: ", https_origin, "/api"));
    let r = text::with(r, &text::cat3("HTTPS Web: ", https_origin, "/"));
    assert(text::views(r@) == seq![
        "HTTP API: "@ + http_origin@ + "/api"@,
        "HTTP Web: "@ + http_origin@ + "/"@,
        "HTTPS API: "@ + https_origin@ + "/api"@,
        "HTTPS Web: "@ + https_origin@ + "/"@,
    ]);
    r
}

/// The certificate is always for the machine itself.
pub proof fn certificates_are_for_the_machine(host: Seq<char>, address: HostAddress)
    ensures
        certificate_names(host, address).contains("localhost"@),
        certificate_names(host, address).contains("127.0.0.1"@),
        certificate_names(host, address).contains("::1"@),
{
    let all = certificate_names(host, address);
    assert(all[0] == "localhost"@);
    assert(all[1] == "127.0.0.1"@);
    assert(all[2] == "::1"@);
}

/// A host stands for itself without the white space round it, and without brackets where it stands in
/// some.
pub proof fn a_host_is_taken_without_brackets(host: Seq<char>, inner: Seq<char>)
    ensures
        text::trimmed(host) == seq!['['] + inner + seq![']'] ==> configured(host) == inner,
        text::trimmed(host) == inner && inner.len() > 0 && inner[0] != '[' ==> configured(host)
            == inner,
        text::trimmed(host) == inner && inner.len() > 0 && inner.last() != ']' ==> configured(host)
            == inner,
{
    reveal_strlit("[");
    reveal_strlit("]");
    let said = text::trimmed(host);
    assert("["@ == seq!['['] && "]"@ == seq![']']);
    if said == seq!['['] + inner + seq![']'] {
        assert(said.subrange(0, 1) == seq!['[']);
        let rest = said.skip(1);
        assert(rest.subrange(rest.len() - 1, rest.len() as int) == seq![']']);
        assert(said.subrange(1, said.len() - 1) == inner);
    } else if said == inner && inner.len() > 0 {
        if text::begins_with(said, "["@) {
            assert(said.subrange(0, 1)[0] == said[0]);
            assert(seq!['['][0] == '[');
        }
        let rest = said.skip(1);
        if text::finishes_with(rest, "]"@) && rest.len() > 0 {
            assert(rest.subrange(rest.len() - 1, rest.len() as int)[0] == said.last());
            assert(seq![']'][0] == ']');
        }
    }
}

/// The certificate is for the host that is set, unless that says nothing, and for nothing besides that
/// and the machine itself.
pub proof fn a_certificate_is_for_the_host(host: Seq<char>, address: HostAddress, name: Seq<char>)
    ensures
        address == HostAddress::Address ==> certificate_names(host, address).contains(
            configured(host),
        ),
        address == HostAddress::Name && configured(host).len() > 0 && configured(host) != "*"@
            ==> certificate_names(host, address).contains(configured(host)),
        address == HostAddress::Unspecified ==> certificate_names(host, address) == local_names(),
        certificate_names(host, address).contains(name) ==> local_names().contains(name) || name
            == configured(host),
{
    let n = configured(host);
    let l = local_names();
    let c = certificate_names(host, address);
    if c.len() == l.len() + 1 {
        assert(c[l.len() as int] == n);
    }
    if c.contains(name) {
        let k = choose|k: int| 0 <= k < c.len() && c[k] == name;
        if k < l.len() {
            assert(l[k] == name);
        }
    }
}

/// A certificate can be for names exactly where all their characters are among the first hundred and
/// twenty-eight; else the first name that has another is told.
pub proof fn the_first_foreign_name_is_told(names: Seq<Seq<char>>, from: int, i: int)
    requires
        0 <= from <= i < names.len(),
        forall|j: int| from <= j < i ==> is_plain(#[trigger] names[j]),
        !is_plain(names[i]),
    ensures
        foreign_name(names, from) == names[i],
        !certifiable(names),
    decreases i - from,
{
    if from < i {
        assert(is_plain(names[from]));
        the_first_foreign_name_is_told(names, from + 1, i);
    }
}

/// The server is reached at its address and port; where it listens everywhere, at the machine itself.
pub proof fn the_server_is_reached_where_it_listens(scheme: Seq<char>, a: BoundAddress)
    ensures
        !a.v6 && !a.unspecified ==> origin_of(scheme, a) == scheme + "://"@ + a.ip@ + ":"@
            + text::decimal(a.port as nat),
        !a.v6 && a.unspecified ==> origin_of(scheme, a) == scheme + "://"@ + "127.0.0.1"@ + ":"@
            + text::decimal(a.port as nat),
        a.v6 && !a.unspecified ==> origin_of(scheme, a) == scheme + "://"@ + ("["@ + a.ip@ + "]"@)
            + ":"@ + text::decimal(a.port as nat),
        a.v6 && a.unspecified ==> origin_of(scheme, a) == scheme + "://"@ + ("["@ + "::1"@ + "]"@)
            + ":"@ + text::decimal(a.port as nat),
{
}

} // verus!
