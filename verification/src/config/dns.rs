//! DNS-01 providers and their credentials.
use crate::config::ast::{
    add_to, DnsChallenge, DnsChallengeView, DnsCredentials, DnsCredentialsView, DnsProvider,
    DnsProviderView,
};
use crate::text::{cat3, cat5, is_among, join, joined, owned, same};
use vstd::prelude::*;

verus! {

/// The Cloudflare provider.
pub open spec fn cloudflare() -> DnsProviderView {
    DnsProviderView {
        keyword: "cloudflare"@,
        fields: seq!["api_token"@],
        shorthand_field: Some("api_token"@),
    }
}

/// The provider that a keyword names.
pub open spec fn provider(keyword: Seq<char>) -> Option<DnsProviderView> {
    if keyword == "cloudflare"@ {
        Some(cloudflare())
    } else {
        None
    }
}

/// The keywords of the providers, for error messages.
pub fn keywords() -> (r: &'static str)
    ensures
        r@ == "cloudflare"@,
{
    "cloudflare"
}

/// The provider that a keyword names.
pub fn lookup(keyword: &str) -> (r: Option<DnsProvider>)
    ensures
        match r {
            Some(p) => provider(keyword@) == Some(p.deep_view()),
            None => provider(keyword@) is None,
        },
{
    if same(keyword, "cloudflare") {
        let mut fields: Vec<String> = Vec::new();
        assert(fields.deep_view() == Seq::<Seq<char>>::empty());
        add_to(&mut fields, owned("api_token"));
        assert(fields.deep_view() == cloudflare().fields);
        Some(
            DnsProvider {
                keyword: owned("cloudflare"),
                fields,
                shorthand_field: Some(owned("api_token")),
            },
        )
    } else {
        None
    }
}

/// The value of the credential `name` among `entries`.
pub open spec fn credential(entries: Seq<(Seq<char>, Seq<char>)>, name: Seq<char>) -> Option<
    Seq<char>,
>
    decreases entries.len(),
{
    if entries.len() == 0 {
        None
    } else if entries[0].0 == name {
        Some(entries[0].1)
    } else {
        credential(entries.skip(1), name)
    }
}

/// The names of the credentials.
pub open spec fn names(entries: Seq<(Seq<char>, Seq<char>)>) -> Seq<Seq<char>> {
    Seq::new(entries.len(), |i: int| entries[i].0)
}

impl DnsCredentials {
    /// Credentials from `(name, value)` pairs.
    pub fn from_pairs(entries: Vec<(String, String)>) -> (r: DnsCredentials)
        ensures
            r.deep_view() == (DnsCredentialsView { entries: entries.deep_view() }),
    {
        DnsCredentials { entries }
    }

    /// The value of the credential `name`.
    pub fn get(&self, name: &str) -> (r: Option<&str>)
        ensures
            match r {
                Some(v) => credential(self.deep_view().entries, name@) == Some(v@),
                None => credential(self.deep_view().entries, name@) is None,
            },
    {
        let ghost all = self.deep_view().entries;
        let mut i: usize = 0;
        assert(all.skip(0) == all);
        while i < self.entries.len()
            invariant
                i <= self.entries@.len(),
                all == self.entries.deep_view(),
                credential(all, name@) == credential(all.skip(i as int), name@),
            decreases self.entries@.len() - i,
        {
            assert(all.skip(i as int)[0] == (self.entries@[i as int].0@, self.entries@[i as int].1@));
            assert(all.skip(i as int).skip(1) == all.skip(i + 1));
            if same(self.entries[i].0.as_str(), name) {
                return Some(self.entries[i].1.as_str());
            }
            i += 1;
        }
        None
    }

    /// The names of the credentials, without their values.
    pub fn field_names(&self) -> (r: Vec<String>)
        ensures
            r.deep_view() == names(self.deep_view().entries),
    {
        let mut r: Vec<String> = Vec::new();
        let mut i: usize = 0;
        while i < self.entries.len()
            invariant
                i <= self.entries@.len(),
                r@.len() == i,
                forall|j: int| 0 <= j < i ==> r@[j]@ == self.entries@[j].0@,
            decreases self.entries@.len() - i,
        {
            r.push(owned(self.entries[i].0.as_str()));
            i += 1;
        }
        assert(r.deep_view() == names(self.deep_view().entries));
        r
    }
}

/// The first credential that the provider does not know, from index `i` on.
pub open spec fn unknown_credential(
    p: DnsProviderView,
    entries: Seq<(Seq<char>, Seq<char>)>,
    i: int,
) -> Option<Seq<char>>
    decreases entries.len() - i,
{
    if i < 0 || i >= entries.len() {
        None
    } else if !p.fields.contains(entries[i].0) {
        Some(entries[i].0)
    } else {
        unknown_credential(p, entries, i + 1)
    }
}

/// The first field of the provider, from index `i` on, that has no credential.
pub open spec fn missing_credential(
    p: DnsProviderView,
    entries: Seq<(Seq<char>, Seq<char>)>,
    i: int,
) -> Option<Seq<char>>
    decreases p.fields.len() - i,
{
    if i < 0 || i >= p.fields.len() {
        None
    } else if credential(entries, p.fields[i]) is None {
        Some(p.fields[i])
    } else {
        missing_credential(p, entries, i + 1)
    }
}

/// What is wrong with the credentials for a provider, if anything: every
/// credential is one of its fields, and every field has one.
pub open spec fn credentials_fault(p: DnsProviderView, c: DnsCredentialsView) -> Option<Seq<char>> {
    match unknown_credential(p, c.entries, 0) {
        Some(name) => Some(
            "unknown "@ + p.keyword + " credential '"@ + name + ("' (expected "@ + joined(
                p.fields,
                ", "@,
            ) + ")"@),
        ),
        None => match missing_credential(p, c.entries, 0) {
            Some(field) => Some(
                "dns_challenge "@ + p.keyword + " requires '"@ + field + "'"@,
            ),
            None => None,
        },
    }
}

impl DnsProvider {
    /// Check the credentials against the fields that the provider declares.
    pub fn validate(&self, credentials: &DnsCredentials) -> (r: Result<(), String>)
        ensures
            match r {
                Ok(_) => credentials_fault(self.deep_view(), credentials.deep_view()) is None,
                Err(m) => credentials_fault(self.deep_view(), credentials.deep_view()) == Some(m@),
            },
    {
        let ghost p = self.deep_view();
        let ghost entries = credentials.deep_view().entries;
        let mut i: usize = 0;
        while i < credentials.entries.len()
            invariant
                i <= credentials.entries@.len(),
                p == self.deep_view(),
                entries == credentials.deep_view().entries,
                unknown_credential(p, entries, 0) == unknown_credential(p, entries, i as int),
            decreases credentials.entries@.len() - i,
        {
            let name = credentials.entries[i].0.as_str();
            assert(entries[i as int].0 == name@);
            if !is_among(name, &self.fields) {
                let all = join(&self.fields, 0, self.fields.len(), ", ");
                assert(p.fields.subrange(0, p.fields.len() as int) == p.fields);
                let head = cat3("unknown ", self.keyword.as_str(), " credential '");
                let tail = cat3("' (expected ", all.as_str(), ")");
                return Err(cat3(head.as_str(), name, tail.as_str()));
            }
            i += 1;
        }
        let mut k: usize = 0;
        while k < self.fields.len()
            invariant
                k <= self.fields@.len(),
                p == self.deep_view(),
                entries == credentials.deep_view().entries,
                unknown_credential(p, entries, 0) is None,
                missing_credential(p, entries, 0) == missing_credential(p, entries, k as int),
            decreases self.fields@.len() - k,
        {
            assert(p.fields[k as int] == self.fields@[k as int]@);
            if credentials.get(self.fields[k].as_str()).is_none() {
                return Err(
                    cat5(
                        "dns_challenge ",
                        self.keyword.as_str(),
                        " requires '",
                        self.fields[k].as_str(),
                        "'",
                    ),
                );
            }
            k += 1;
        }
        Ok(())
    }
}

/// How a challenge may be shown: the provider and the names of its credentials.
pub open spec fn shown(c: DnsChallengeView) -> Seq<char> {
    "dns_challenge "@ + c.provider.keyword + " { "@ + joined(
        names(c.credentials.entries),
        ", "@,
    ) + " }"@
}

impl DnsChallenge {
    /// The challenge for logs and messages, without any secret.
    pub fn describe(&self) -> (r: String)
        ensures
            r@ == shown(self.deep_view()),
    {
        let fields = self.credentials.field_names();
        let all = join(&fields, 0, fields.len(), ", ");
        assert(fields.deep_view().subrange(0, fields@.len() as int) == fields.deep_view());
        cat5("dns_challenge ", self.provider.keyword.as_str(), " { ", all.as_str(), " }")
    }
}

/// What is shown of a challenge does not depend on the values of its
/// credentials.
pub proof fn secrets_are_never_shown(a: DnsChallengeView, b: DnsChallengeView)
    requires
        a.provider == b.provider,
        names(a.credentials.entries) == names(b.credentials.entries),
    ensures
        shown(a) == shown(b),
{
}

} // verus!
