//! The event model: a signed, immutable record with identifier, author,
//! kind, timestamp, content and an ordered list of tags, together with the
//! tag grammar that patch and status events use.
use vstd::prelude::*;

use crate::strutil::str_eq;

verus! {

/// Event kind of a patch event (cover letter, root patch or reply patch).
pub const PATCH_KIND: u64 = 1617;

/// Event kind of a repository announcement.
pub const REPO_REF_KIND: u64 = 30617;

/// Status event kinds: a proposal is open, applied, closed or draft.
pub const STATUS_KIND_OPEN: u64 = 1630;

pub const STATUS_KIND_APPLIED: u64 = 1631;

pub const STATUS_KIND_CLOSED: u64 = 1632;

pub const STATUS_KIND_DRAFT: u64 = 1633;

/// A signed event. Each tag is an ordered list of strings whose first
/// element names the tag and whose second element carries its value.
#[derive(Clone, Debug)]
pub struct Event {
    pub id: String,
    pub pubkey: String,
    pub created_at: u64,
    pub kind: u64,
    pub content: String,
    pub tags: Vec<Vec<String>>,
    pub sig: String,
}

impl Event {
    /// Every tag carries at least a name and a value.
    pub open spec fn wf(self) -> bool {
        forall|i: int| 0 <= i < self.tags@.len() ==> #[trigger] self.tags@[i]@.len() >= 2
    }

    /// The value of the first tag named `name`, if any.
    pub open spec fn spec_tag_value(self, name: Seq<char>) -> Option<Seq<char>> {
        spec_tag_value_in(self.tags@, name)
    }

    /// True when some tag's value (second element) equals `v`.
    pub open spec fn spec_has_tag_value(self, v: Seq<char>) -> bool {
        exists|i: int| 0 <= i < self.tags@.len() && #[trigger] self.tags@[i]@[1]@ == v
    }

    /// The event id referenced by the first `e` tag whose marker (fourth
    /// element) equals `marker`, if any.
    pub open spec fn spec_ref_with_marker(self, marker: Seq<char>) -> Option<Seq<char>> {
        spec_ref_with_marker_in(self.tags@, marker)
    }
}

/// The referenced id of the first `e` tag in `tags` carrying `marker`.
pub open spec fn spec_ref_with_marker_in(tags: Seq<Vec<String>>, marker: Seq<char>) -> Option<
    Seq<char>,
>
    decreases tags.len(),
{
    if tags.len() == 0 {
        None
    } else if tags[0]@[0]@ == "e"@ && tags[0]@.len() >= 4 && tags[0]@[3]@ == marker {
        Some(tags[0]@[1]@)
    } else {
        spec_ref_with_marker_in(tags.drop_first(), marker)
    }
}

/// The thread-root event id that `e` references: its `e (root)` tag, or
/// its own id when it is itself a patch-set root.
pub open spec fn spec_thread_key(e: Event) -> Option<Seq<char>> {
    match e.spec_ref_with_marker("root"@) {
        Some(k) => Some(k),
        None => if spec_event_is_patch_set_root(e) {
            Some(e.id@)
        } else {
            None
        },
    }
}

/// A chain root: a patch-set root that references no earlier thread root.
pub open spec fn spec_is_chain_root(e: Event) -> bool {
    spec_event_is_patch_set_root(e) && e.spec_ref_with_marker("root"@) is None
}

/// The value of the first tag in `tags` named `name`, if any.
pub open spec fn spec_tag_value_in(tags: Seq<Vec<String>>, name: Seq<char>) -> Option<Seq<char>>
    decreases tags.len(),
{
    if tags.len() == 0 {
        None
    } else if tags[0]@[0]@ == name {
        Some(tags[0]@[1]@)
    } else {
        spec_tag_value_in(tags.drop_first(), name)
    }
}

/// The value of the first tag named `name`, read at the view level.
pub open spec fn spec_tag_value_dv(tags: Seq<Seq<Seq<char>>>, name: Seq<char>) -> Option<Seq<char>>
    decreases tags.len(),
{
    if tags.len() == 0 {
        None
    } else if tags[0][0] == name {
        Some(tags[0][1])
    } else {
        spec_tag_value_dv(tags.drop_first(), name)
    }
}

/// Tag lookups read only the view of the tags: on a tag list whose deep
/// view is `dv`, the lookup agrees with its view-level counterpart.
pub proof fn lemma_tag_value_matches_dv(tags: Seq<Vec<String>>, dv: Seq<Seq<Seq<char>>>, name: Seq<char>)
    requires
        dv.len() == tags.len(),
        forall|i: int| 0 <= i < tags.len() ==> dv[i] == (#[trigger] tags[i]).deep_view(),
        forall|i: int| 0 <= i < tags.len() ==> (#[trigger] tags[i])@.len() >= 2,
    ensures
        spec_tag_value_in(tags, name) == spec_tag_value_dv(dv, name),
    decreases tags.len(),
{
    if tags.len() > 0 {
        assert(tags[0]@[0]@ == tags[0].deep_view()[0]);
        assert(tags[0]@[1]@ == tags[0].deep_view()[1]);
        if tags[0]@[0]@ != name {
            let t2 = tags.drop_first();
            let d2 = dv.drop_first();
            assert forall|i: int| 0 <= i < t2.len() implies d2[i] == (#[trigger] t2[i]).deep_view()
                && t2[i]@.len() >= 2 by {
                assert(dv[i + 1] == tags[i + 1].deep_view());
                assert(tags[i + 1]@.len() >= 2);
            }
            lemma_tag_value_matches_dv(t2, d2, name);
        }
    }
}

/// Splitting a view-level tag lookup at a concatenation.
pub proof fn lemma_tag_value_dv_concat(
    a: Seq<Seq<Seq<char>>>,
    b: Seq<Seq<Seq<char>>>,
    name: Seq<char>,
)
    ensures
        spec_tag_value_dv(a + b, name) == (match spec_tag_value_dv(a, name) {
            Some(v) => Some(v),
            None => spec_tag_value_dv(b, name),
        }),
    decreases a.len(),
{
    if a.len() == 0 {
        assert(a + b =~= b);
    } else {
        assert((a + b)[0] == a[0]);
        assert((a + b).drop_first() =~= a.drop_first() + b);
        lemma_tag_value_dv_concat(a.drop_first(), b, name);
    }
}

/// Two events that carry the same data: the same identifier, author,
/// timestamp, kind, content, and tag-for-tag the same tags.
pub open spec fn event_like(a: Event, b: Event) -> bool {
    a.id@ == b.id@ && a.pubkey@ == b.pubkey@ && a.created_at == b.created_at && a.kind == b.kind
        && a.content@ == b.content@ && a.sig@ == b.sig@ && a.tags.deep_view() == b.tags.deep_view()
}

/// True when `e` carries the same data as some event of `src`.
pub open spec fn spec_from_events(src: Seq<Event>, e: Event) -> bool {
    exists|j: int| 0 <= j < src.len() && event_like(#[trigger] src[j], e)
}

/// Events that carry the same data answer every tag question alike.
pub proof fn lemma_event_like_tags(a: Event, b: Event)
    requires
        event_like(a, b),
        a.wf(),
    ensures
        b.wf(),
        forall|name: Seq<char>| a.spec_tag_value(name) == b.spec_tag_value(name),
        forall|v: Seq<char>| a.spec_has_tag_value(v) == b.spec_has_tag_value(v),
        forall|marker: Seq<char>| a.spec_ref_with_marker(marker) == b.spec_ref_with_marker(marker),
{
    assert(a.tags.deep_view().len() == a.tags@.len());
    assert(b.tags.deep_view().len() == b.tags@.len());
    assert forall|i: int| 0 <= i < a.tags@.len() implies #[trigger] a.tags@[i]@.len()
        == b.tags@[i]@.len() by {
        assert(a.tags.deep_view()[i] == b.tags.deep_view()[i]);
        assert(a.tags@[i].deep_view().len() == b.tags@[i].deep_view().len());
    }
    assert forall|i: int, j: int|
        0 <= i < a.tags@.len() && 0 <= j < a.tags@[i]@.len() implies #[trigger] a.tags@[i]@[j]@
        == b.tags@[i]@[j]@ by {
        assert(a.tags.deep_view()[i] == b.tags.deep_view()[i]);
        assert(a.tags@[i].deep_view()[j] == b.tags@[i].deep_view()[j]);
    }
    assert forall|i: int| 0 <= i < b.tags@.len() implies #[trigger] b.tags@[i]@.len() >= 2 by {
        assert(a.tags@[i]@.len() >= 2);
        assert(a.tags@[i]@.len() == b.tags@[i]@.len());
    }
    assert forall|name: Seq<char>| a.spec_tag_value(name) == b.spec_tag_value(name) by {
        lemma_tag_value_like(a.tags@, b.tags@, name);
    }
    assert forall|marker: Seq<char>| a.spec_ref_with_marker(marker) == b.spec_ref_with_marker(
        marker,
    ) by {
        lemma_ref_with_marker_like(a.tags@, b.tags@, marker);
    }
    assert forall|v: Seq<char>| a.spec_has_tag_value(v) == b.spec_has_tag_value(v) by {
        if a.spec_has_tag_value(v) {
            let i = choose|i: int| 0 <= i < a.tags@.len() && #[trigger] a.tags@[i]@[1]@ == v;
            assert(b.tags@[i]@[1]@ == v);
        }
        if b.spec_has_tag_value(v) {
            let i = choose|i: int| 0 <= i < b.tags@.len() && #[trigger] b.tags@[i]@[1]@ == v;
            assert(a.tags@[i]@[1]@ == v);
        }
    }
}

proof fn lemma_tag_value_like(ta: Seq<Vec<String>>, tb: Seq<Vec<String>>, name: Seq<char>)
    requires
        ta.len() == tb.len(),
        forall|i: int, j: int|
            0 <= i < ta.len() && 0 <= j < ta[i]@.len() ==> #[trigger] ta[i]@[j]@ == tb[i]@[j]@,
        forall|i: int| 0 <= i < ta.len() ==> #[trigger] ta[i]@.len() == tb[i]@.len(),
        forall|i: int| 0 <= i < ta.len() ==> #[trigger] ta[i]@.len() >= 2,
    ensures
        spec_tag_value_in(ta, name) == spec_tag_value_in(tb, name),
    decreases ta.len(),
{
    if ta.len() > 0 {
        assert(ta[0]@[0]@ == tb[0]@[0]@ && ta[0]@[1]@ == tb[0]@[1]@);
        if ta[0]@[0]@ != name {
            let ta2 = ta.drop_first();
            let tb2 = tb.drop_first();
            assert forall|i: int, j: int|
                0 <= i < ta2.len() && 0 <= j < ta2[i]@.len() implies #[trigger] ta2[i]@[j]@
                == tb2[i]@[j]@ by {
                assert(ta[i + 1]@[j]@ == tb[i + 1]@[j]@);
            }
            assert forall|i: int| 0 <= i < ta2.len() implies #[trigger] ta2[i]@.len()
                == tb2[i]@.len() && ta2[i]@.len() >= 2 by {
                assert(ta[i + 1]@.len() == tb[i + 1]@.len());
                assert(ta[i + 1]@.len() >= 2);
            }
            lemma_tag_value_like(ta2, tb2, name);
        }
    }
}

proof fn lemma_ref_with_marker_like(ta: Seq<Vec<String>>, tb: Seq<Vec<String>>, marker: Seq<char>)
    requires
        ta.len() == tb.len(),
        forall|i: int, j: int|
            0 <= i < ta.len() && 0 <= j < ta[i]@.len() ==> #[trigger] ta[i]@[j]@ == tb[i]@[j]@,
        forall|i: int| 0 <= i < ta.len() ==> #[trigger] ta[i]@.len() == tb[i]@.len(),
        forall|i: int| 0 <= i < ta.len() ==> #[trigger] ta[i]@.len() >= 2,
    ensures
        spec_ref_with_marker_in(ta, marker) == spec_ref_with_marker_in(tb, marker),
    decreases ta.len(),
{
    if ta.len() > 0 {
        assert(ta[0]@[0]@ == tb[0]@[0]@ && ta[0]@[1]@ == tb[0]@[1]@);
        if ta[0]@.len() >= 4 {
            assert(ta[0]@[3]@ == tb[0]@[3]@);
        }
        if !(ta[0]@[0]@ == "e"@ && ta[0]@.len() >= 4 && ta[0]@[3]@ == marker) {
            let ta2 = ta.drop_first();
            let tb2 = tb.drop_first();
            assert forall|i: int, j: int|
                0 <= i < ta2.len() && 0 <= j < ta2[i]@.len() implies #[trigger] ta2[i]@[j]@
                == tb2[i]@[j]@ by {
                assert(ta[i + 1]@[j]@ == tb[i + 1]@[j]@);
            }
            assert forall|i: int| 0 <= i < ta2.len() implies #[trigger] ta2[i]@.len()
                == tb2[i]@.len() && ta2[i]@.len() >= 2 by {
                assert(ta[i + 1]@.len() == tb[i + 1]@.len());
                assert(ta[i + 1]@.len() >= 2);
            }
            lemma_ref_with_marker_like(ta2, tb2, marker);
        }
    }
}

/// Copies one tag, value for value.
fn clone_tag(t: &Vec<String>) -> (r: Vec<String>)
    ensures
        r.deep_view() == t.deep_view(),
        r@.len() == t@.len(),
        forall|j: int| 0 <= j < t@.len() ==> #[trigger] r@[j]@ == t@[j]@,
{
    let n: usize = t.len();
    let mut r: Vec<String> = Vec::new();
    let mut i: usize = 0;
    while i < n
        invariant
            0 <= i <= n,
            n == t@.len(),
            r@.len() == i,
            forall|j: int| 0 <= j < i ==> #[trigger] r@[j]@ == t@[j]@,
        decreases n - i,
    {
        r.push(t[i].clone());
        i = i + 1;
    }
    assert(r.deep_view() =~= t.deep_view());
    r
}

/// Copies an event, field for field and tag for tag.
pub fn clone_event(e: &Event) -> (r: Event)
    ensures
        event_like(*e, r),
{
    let n: usize = e.tags.len();
    let mut tags: Vec<Vec<String>> = Vec::new();
    let mut i: usize = 0;
    while i < n
        invariant
            0 <= i <= n,
            n == e.tags@.len(),
            tags@.len() == i,
            forall|j: int| 0 <= j < i ==> #[trigger] tags@[j].deep_view() == e.tags@[j].deep_view(),
        decreases n - i,
    {
        tags.push(clone_tag(&e.tags[i]));
        i = i + 1;
    }
    assert(tags.deep_view() =~= e.tags.deep_view());
    Event {
        id: e.id.clone(),
        pubkey: e.pubkey.clone(),
        created_at: e.created_at,
        kind: e.kind,
        content: e.content.clone(),
        tags,
        sig: e.sig.clone(),
    }
}

/// The value of the first tag named `name`; the error used throughout the
/// event readers when the tag is missing.
pub fn tag_value(event: &Event, name: &str) -> (r: Result<String, String>)
    requires
        event.wf(),
    ensures
        match r {
            Ok(v) => event.spec_tag_value(name@) == Some(v@),
            Err(_) => event.spec_tag_value(name@) is None,
        },
{
    let n: usize = event.tags.len();
    let mut i: usize = 0;
    proof {
        assert(event.tags@.skip(0) =~= event.tags@);
    }
    while i < n
        invariant
            0 <= i <= n,
            n == event.tags@.len(),
            event.wf(),
            event.spec_tag_value(name@) == spec_tag_value_in(event.tags@.skip(i as int), name@),
        decreases n - i,
    {
        let t = &event.tags[i];
        proof {
            assert(event.tags@.skip(i as int)[0] == event.tags@[i as int]);
            assert(event.tags@.skip(i as int).drop_first() =~= event.tags@.skip(i + 1));
        }
        if str_eq(t[0].as_str(), name) {
            return Ok(t[1].clone());
        }
        i = i + 1;
    }
    Err(String::from_str("tag missing"))
}

/// The event id referenced by the first `e` tag carrying `marker` in its
/// fourth position; the threading link between patch events.
pub fn event_ref_with_marker(event: &Event, marker: &str) -> (r: Option<String>)
    requires
        event.wf(),
    ensures
        match r {
            Some(v) => event.spec_ref_with_marker(marker@) == Some(v@),
            None => event.spec_ref_with_marker(marker@) is None,
        },
{
    let n: usize = event.tags.len();
    let mut i: usize = 0;
    proof {
        assert(event.tags@.skip(0) =~= event.tags@);
    }
    while i < n
        invariant
            0 <= i <= n,
            n == event.tags@.len(),
            event.wf(),
            event.spec_ref_with_marker(marker@) == spec_ref_with_marker_in(
                event.tags@.skip(i as int),
                marker@,
            ),
        decreases n - i,
    {
        let t = &event.tags[i];
        proof {
            assert(event.tags@.skip(i as int)[0] == event.tags@[i as int]);
            assert(event.tags@.skip(i as int).drop_first() =~= event.tags@.skip(i + 1));
        }
        if str_eq(t[0].as_str(), "e") && t.len() >= 4 && str_eq(t[3].as_str(), marker) {
            return Some(t[1].clone());
        }
        i = i + 1;
    }
    None
}

/// A chain root: a patch-set root event with no `e (root)` reference.
pub fn event_is_chain_root(event: &Event) -> (r: bool)
    requires
        event.wf(),
    ensures
        r == spec_is_chain_root(*event),
{
    if !event_is_patch_set_root(event) {
        return false;
    }
    match event_ref_with_marker(event, "root") {
        Some(_) => false,
        None => true,
    }
}

/// True when some tag's value equals `v`; the discriminator used by the
/// `t`-hashtag tests below.
pub fn has_tag_value(event: &Event, v: &str) -> (r: bool)
    requires
        event.wf(),
    ensures
        r == event.spec_has_tag_value(v@),
{
    let n: usize = event.tags.len();
    let mut i: usize = 0;
    while i < n
        invariant
            0 <= i <= n,
            n == event.tags@.len(),
            event.wf(),
            forall|j: int| 0 <= j < i ==> #[trigger] event.tags@[j]@[1]@ != v@,
        decreases n - i,
    {
        let t = &event.tags[i];
        if str_eq(t[1].as_str(), v) {
            return true;
        }
        i = i + 1;
    }
    false
}

/// A patch event that carries both the `root` and the `cover-letter`
/// hashtags.
pub open spec fn spec_event_is_cover_letter(e: Event) -> bool {
    e.kind == PATCH_KIND && e.spec_has_tag_value("root"@) && e.spec_has_tag_value(
        "cover-letter"@,
    )
}

pub fn event_is_cover_letter(event: &Event) -> (r: bool)
    requires
        event.wf(),
    ensures
        r == spec_event_is_cover_letter(*event),
{
    event.kind == PATCH_KIND && has_tag_value(event, "root") && has_tag_value(
        event,
        "cover-letter",
    )
}

/// A patch event that starts a series: a root patch or a cover letter.
pub open spec fn spec_event_is_patch_set_root(e: Event) -> bool {
    e.kind == PATCH_KIND && e.spec_has_tag_value("root"@)
}

pub fn event_is_patch_set_root(event: &Event) -> (r: bool)
    requires
        event.wf(),
    ensures
        r == spec_event_is_patch_set_root(*event),
{
    event.kind == PATCH_KIND && has_tag_value(event, "root")
}

/// A patch event that starts a revision of an earlier proposal.
pub open spec fn spec_event_is_revision_root(e: Event) -> bool {
    e.spec_has_tag_value("revision-root"@)
}

pub fn event_is_revision_root(event: &Event) -> (r: bool)
    requires
        event.wf(),
    ensures
        r == spec_event_is_revision_root(*event),
{
    has_tag_value(event, "revision-root")
}

/// The event kinds that resolve a proposal's state.
pub fn status_kinds() -> (r: Vec<u64>)
    ensures
        r@ =~= seq![
            STATUS_KIND_OPEN,
            STATUS_KIND_APPLIED,
            STATUS_KIND_CLOSED,
            STATUS_KIND_DRAFT,
        ],
{
    let mut v: Vec<u64> = Vec::new();
    v.push(STATUS_KIND_OPEN);
    v.push(STATUS_KIND_APPLIED);
    v.push(STATUS_KIND_CLOSED);
    v.push(STATUS_KIND_DRAFT);
    v
}

/// True of the kinds listed by `status_kinds`.
pub open spec fn is_status_kind(k: u64) -> bool {
    k == STATUS_KIND_OPEN || k == STATUS_KIND_APPLIED || k == STATUS_KIND_CLOSED
        || k == STATUS_KIND_DRAFT
}

/// Well-formedness of a whole list of events.
pub open spec fn all_wf(events: Seq<Event>) -> bool {
    forall|i: int| 0 <= i < events.len() ==> (#[trigger] events[i]).wf()
}

} // verus!
