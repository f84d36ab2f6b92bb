//! The calls into the nostr crate that the library's logic makes: signing
//! an event and reading the domain out of a URL. Each call stands behind
//! one wrapper whose contract states what the crate's code returns.
use vstd::prelude::*;

use nostr::event as ne;

use crate::events::Event;

verus! {

/// The nostr signing key pair, declared so that signatures can carry it.
#[verifier::external_type_specification]
#[verifier::external_body]
pub struct ExKeys(nostr::key::Keys);

/// What `Url::domain` reads out of a URL string: the registrable host
/// name, or nothing when the string does not parse as a URL or its host
/// is not a domain. A function of the URL string alone.
pub uninterp spec fn url_domain_of(s: Seq<char>) -> Option<Seq<char>>;

/// Relies on `url::Url::parse` (re-exported by nostr) and `Url::domain`:
/// both read only the URL string given, so the result is a function of it.
#[verifier::external_body]
pub fn url_domain(url: &str) -> (r: Option<String>)
    ensures
        match r {
            Some(d) => url_domain_of(url@) == Some(d@),
            None => url_domain_of(url@) is None,
        },
{
    match nostr::types::url::Url::parse(url) {
        Ok(u) => u.domain().map(|d| d.to_string()),
        Err(_) => None,
    }
}

/// Relies on `nostr::EventBuilder::new`, `.tags` and `.finalize` with
/// `nostr::Keys` as the signer: the signed event keeps the kind, content
/// and tags given to the builder (`finalize` only adds the author key,
/// a timestamp, the computed id and a signature). The id, author and
/// timestamp of the result depend on the key and the clock, so nothing is
/// stated about them.
#[verifier::external_body]
pub fn sign_event(kind: u64, content: String, tags: Vec<Vec<String>>, keys: &nostr::key::Keys) -> (r:
    Result<Event, String>)
    requires
        kind <= 0xFFFF,
        forall|i: int| 0 <= i < tags@.len() ==> (#[trigger] tags@[i])@.len() >= 1,
    ensures
        match r {
            Ok(ev) => ev.kind == kind && ev.content@ == content@ && ev.tags.deep_view()
                == tags.deep_view(),
            Err(_) => true,
        },
{
    let parsed: Result<Vec<ne::Tag>, _> = tags.into_iter().map(ne::Tag::parse).collect();
    let builder = ne::EventBuilder::new(ne::Kind::from_u16(kind as u16), content);
    let builder = builder.tags(parsed.map_err(|e| e.to_string())?);
    let ev = ne::FinalizeEvent::finalize(builder, keys).map_err(|e| e.to_string())?;
    Ok(Event {
        id: ev.id.to_hex(),
        pubkey: ev.pubkey.to_hex(),
        created_at: ev.created_at.as_secs(),
        kind,
        content: ev.content.clone(),
        tags: ev.tags.to_vec().into_iter().map(ne::Tag::to_vec).collect(),
        sig: ev.sig.to_string(),
    })
}

} // verus!
