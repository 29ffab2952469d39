//! Parsing of the `Authorization` header of a SigV4-signed request.
use vstd::prelude::*;
use vstd::string::*;
use crate::text::{find_char, first_index, lemma_first_index, split, split_str, str_eq};

verus! {

/// The parsed `Authorization` header.
pub struct AwsSigV4Auth<'a> {
    pub signing_scope: SigningScope<'a>,
    pub signed_headers: Vec<&'a str>,
    pub signature: &'a str,
}

#[derive(Debug, PartialEq, Eq, Structural)]
pub enum AuthHeaderError {
    InvalidHeader,
    UnsupportedAlgorithm,
    InvalidKeyValue,
    MissingCredential,
    MissingSignedHeaders,
    MissingSignature,
    InvalidScope,
}

/// The credential scope `access_key_id/yyyymmdd/region/service/aws4_request`.
pub struct SigningScope<'a> {
    pub access_key_id: &'a str,
    pub date_yyyymmdd: &'a str,
    pub region: &'a str,
    pub service: &'a str,
    pub aws4_request: &'a str,
}

pub struct ScopeView {
    pub access_key_id: Seq<char>,
    pub date_yyyymmdd: Seq<char>,
    pub region: Seq<char>,
    pub service: Seq<char>,
    pub aws4_request: Seq<char>,
}

impl<'a> View for SigningScope<'a> {
    type V = ScopeView;

    open spec fn view(&self) -> ScopeView {
        ScopeView {
            access_key_id: self.access_key_id@,
            date_yyyymmdd: self.date_yyyymmdd@,
            region: self.region@,
            service: self.service@,
            aws4_request: self.aws4_request@,
        }
    }
}

pub struct AuthView {
    pub signing_scope: ScopeView,
    pub signed_headers: Seq<Seq<char>>,
    pub signature: Seq<char>,
}

impl<'a> View for AwsSigV4Auth<'a> {
    type V = AuthView;

    open spec fn view(&self) -> AuthView {
        AuthView {
            signing_scope: self.signing_scope@,
            signed_headers: self.signed_headers@.map_values(|x: &str| x@),
            signature: self.signature@,
        }
    }
}

/// The credential scope: exactly five parts separated by `/`.
pub open spec fn scope_of(value: Seq<char>) -> Option<ScopeView> {
    let parts = split(value, "/"@);
    if parts.len() == 5 {
        Some(
            ScopeView {
                access_key_id: parts[0],
                date_yyyymmdd: parts[1],
                region: parts[2],
                service: parts[3],
                aws4_request: parts[4],
            },
        )
    } else {
        None
    }
}

/// Parses a credential scope.
pub fn parse_signing_scope(value: &str) -> (r: Option<SigningScope<'_>>)
    ensures
        match r {
            Some(s) => scope_of(value@) == Some(s@),
            None => scope_of(value@) is None,
        },
{
    proof {
        reveal_strlit("/");
    }
    let parts = split_str(value, "/");
    if parts.len() != 5 {
        return None;
    }
    let ghost v = parts@.map_values(|x: &str| x@);
    assert(v[0] == parts@[0]@ && v[1] == parts@[1]@ && v[2] == parts@[2]@ && v[3] == parts@[3]@
        && v[4] == parts@[4]@);
    Some(
        SigningScope {
            access_key_id: parts[0],
            date_yyyymmdd: parts[1],
            region: parts[2],
            service: parts[3],
            aws4_request: parts[4],
        },
    )
}

/// Whether a `key=value` item has its `=`.
pub open spec fn has_eq(item: Seq<char>) -> bool {
    first_index(item, '=') is Some
}

pub open spec fn key_of(item: Seq<char>) -> Seq<char> {
    item.subrange(0, first_index(item, '=').unwrap())
}

pub open spec fn value_of(item: Seq<char>) -> Seq<char> {
    item.subrange(first_index(item, '=').unwrap() + 1, item.len() as int)
}

/// The value of the last item whose key is `key`.
pub open spec fn kv_lookup(items: Seq<Seq<char>>, key: Seq<char>) -> Option<Seq<char>>
    decreases items.len(),
{
    if items.len() == 0 {
        None
    } else if has_eq(items.last()) && key_of(items.last()) == key {
        Some(value_of(items.last()))
    } else {
        kv_lookup(items.drop_last(), key)
    }
}

/// What parsing an `Authorization` header gives: the algorithm before the
/// first space, then items `key=value` separated by `, `, of which the last
/// `Credential`, `SignedHeaders` and `Signature` count.
pub open spec fn auth_of(h: Seq<char>) -> Result<AuthView, AuthHeaderError> {
    let alg = match first_index(h, ' ') {
        Some(i) => h.subrange(0, i),
        None => h,
    };
    if alg != "AWS4-HMAC-SHA256"@ {
        Err(AuthHeaderError::UnsupportedAlgorithm)
    } else {
        match first_index(h, ' ') {
            None => Err(AuthHeaderError::InvalidHeader),
            Some(i) => {
                let items = split(h.subrange(i + 1, h.len() as int), ", "@);
                if exists|k: int| 0 <= k < items.len() && !has_eq(#[trigger] items[k]) {
                    Err(AuthHeaderError::InvalidKeyValue)
                } else {
                    match kv_lookup(items, "Credential"@) {
                        None => Err(AuthHeaderError::MissingCredential),
                        Some(cred) => match kv_lookup(items, "SignedHeaders"@) {
                            None => Err(AuthHeaderError::MissingSignedHeaders),
                            Some(sh) => match kv_lookup(items, "Signature"@) {
                                None => Err(AuthHeaderError::MissingSignature),
                                Some(sig) => match scope_of(cred) {
                                    None => Err(AuthHeaderError::InvalidScope),
                                    Some(scope) => Ok(
                                        AuthView {
                                            signing_scope: scope,
                                            signed_headers: split(sh, ";"@),
                                            signature: sig,
                                        },
                                    ),
                                },
                            },
                        },
                    }
                }
            },
        }
    }
}

/// Parses the value of an `Authorization` header.
pub fn parse_auth_header<'a>(header: &'a str) -> (r: Result<AwsSigV4Auth<'a>, AuthHeaderError>)
    ensures
        match r {
            Ok(a) => auth_of(header@) == Ok::<AuthView, AuthHeaderError>(a@),
            Err(e) => auth_of(header@) == Err::<AuthView, AuthHeaderError>(e),
        },
{
    proof {
        reveal_strlit(", ");
        reveal_strlit(";");
    }
    let n = header.unicode_len();
    let space = find_char(header, ' ');
    let algorithm = match space {
        Some(i) => header.substring_char(0, i),
        None => header,
    };
    if !str_eq(algorithm, "AWS4-HMAC-SHA256") {
        return Err(AuthHeaderError::UnsupportedAlgorithm);
    }
    let i = match space {
        Some(i) => i,
        None => {
            return Err(AuthHeaderError::InvalidHeader);
        },
    };
    proof {
        lemma_first_index(header@, ' ');
    }
    let kv_string = header.substring_char(i + 1, n);
    let items = split_str(kv_string, ", ");
    let ghost iv = items@.map_values(|x: &str| x@);
    let mut credential: Option<&'a str> = None;
    let mut signed_headers: Option<&'a str> = None;
    let mut signature: Option<&'a str> = None;
    let mut k: usize = 0;
    while k < items.len()
        invariant
            k <= items@.len(),
            n == header@.len(),
            first_index(header@, ' ') == Some(i as int),
            algorithm@ == "AWS4-HMAC-SHA256"@,
            algorithm@ == header@.subrange(0, i as int),
            i < n,
            kv_string@ == header@.subrange(i + 1, n as int),
            iv == split(kv_string@, ", "@),
            iv == items@.map_values(|x: &str| x@),
            forall|q: int| 0 <= q < k ==> has_eq(#[trigger] iv[q]),
            match credential {
                Some(c) => kv_lookup(iv.take(k as int), "Credential"@) == Some(c@),
                None => kv_lookup(iv.take(k as int), "Credential"@) is None,
            },
            match signed_headers {
                Some(c) => kv_lookup(iv.take(k as int), "SignedHeaders"@) == Some(c@),
                None => kv_lookup(iv.take(k as int), "SignedHeaders"@) is None,
            },
            match signature {
                Some(c) => kv_lookup(iv.take(k as int), "Signature"@) == Some(c@),
                None => kv_lookup(iv.take(k as int), "Signature"@) is None,
            },
        decreases items@.len() - k,
    {
        let kv = items[k];
        assert(iv[k as int] == kv@);
        proof {
            reveal_strlit("AWS4-HMAC-SHA256");
            reveal_strlit("Credential");
            reveal_strlit("SignedHeaders");
            reveal_strlit("Signature");
            assert("Credential"@.len() == 10);
            assert("SignedHeaders"@.len() == 13);
            assert("Signature"@.len() == 9);
        }
        let eq = match find_char(kv, '=') {
            Some(e) => e,
            None => {
                assert(!has_eq(iv[k as int]));
                return Err(AuthHeaderError::InvalidKeyValue);
            },
        };
        proof {
            lemma_first_index(kv@, '=');
        }
        let key = kv.substring_char(0, eq);
        let kv_len = kv.unicode_len();
        let value = kv.substring_char(eq + 1, kv_len);
        proof {
            assert(iv.take(k + 1).drop_last() =~= iv.take(k as int));
            assert(iv.take(k + 1).last() == kv@);
        }
        if str_eq(key, "Credential") {
            credential = Some(value);
        } else if str_eq(key, "SignedHeaders") {
            signed_headers = Some(value);
        } else if str_eq(key, "Signature") {
            signature = Some(value);
        }
        k = k + 1;
    }
    assert(iv.take(items@.len() as int) =~= iv);
    let credential = match credential {
        Some(c) => c,
        None => {
            return Err(AuthHeaderError::MissingCredential);
        },
    };
    let signed_headers = match signed_headers {
        Some(c) => c,
        None => {
            return Err(AuthHeaderError::MissingSignedHeaders);
        },
    };
    let signature = match signature {
        Some(c) => c,
        None => {
            return Err(AuthHeaderError::MissingSignature);
        },
    };
    let signed_headers = split_str(signed_headers, ";");
    let signing_scope = match parse_signing_scope(credential) {
        Some(s) => s,
        None => {
            return Err(AuthHeaderError::InvalidScope);
        },
    };
    Ok(AwsSigV4Auth { signing_scope, signed_headers, signature })
}

} // verus!
