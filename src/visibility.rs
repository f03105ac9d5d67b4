use vstd::prelude::*;
use crate::model::{contains_key, duplicate_vec, has_key, AccountId, Duplicate, Work, WorkView};

verus! {

/// What a caller without paid access sees in place of a work's content.
pub const HIDDEN_CONTENT: &'static str = "Invisible content";

/// How much of a work a caller may see.
#[derive(Clone, Copy, Debug, PartialEq, Eq, Structural)]
pub enum Tier {
    /// The author or a collaborator: everything.
    Full,
    /// A caller who paid the fee: the content, but no governance data.
    Authorized,
    /// Anyone else: neither the content nor governance data.
    Public,
}

/// The tier of `caller` for work `w`.
pub open spec fn tier_of(w: WorkView, caller: Seq<char>) -> Tier {
    if caller == w.author.id || has_key::<String>(w.collaborators, caller) {
        Tier::Full
    } else if has_key::<String>(w.authorized_users, caller) {
        Tier::Authorized
    } else {
        Tier::Public
    }
}

/// The view of `w` at tier `t`.
pub open spec fn with_tier(w: WorkView, t: Tier) -> WorkView {
    match t {
        Tier::Full => w,
        Tier::Authorized => WorkView {
            reported_infringements: None,
            ratios: None,
            votes: None,
            authorized_users: Seq::empty(),
            ..w
        },
        Tier::Public => WorkView {
            content: HIDDEN_CONTENT@,
            reported_infringements: None,
            ratios: None,
            votes: None,
            authorized_users: Seq::empty(),
            ..w
        },
    }
}

/// What `caller` is shown of `w`.
pub open spec fn projected(w: WorkView, caller: Seq<char>) -> WorkView {
    with_tier(w, tier_of(w, caller))
}

/// The tier of `caller` for `work`.
pub fn access_tier(work: &Work, caller: &AccountId) -> (t: Tier)
    ensures
        t == tier_of(work@, caller@),
{
    if *caller == work.author.id || contains_key(&work.collaborators, caller) {
        Tier::Full
    } else if contains_key(&work.authorized_users, caller) {
        Tier::Authorized
    } else {
        Tier::Public
    }
}

/// A copy of `work` redacted to tier `t`.
pub fn apply_tier(work: &Work, t: Tier) -> (r: Work)
    ensures
        r@ == with_tier(work@, t),
{
    let mut r = work.duplicate();
    match t {
        Tier::Full => {},
        Tier::Authorized => {
            r.reported_infringements = None;
            r.ratios = None;
            r.votes = None;
            r.authorized_users = Vec::new();
            assert(r.authorized_users.deep_view() =~= Seq::empty());
        },
        Tier::Public => {
            r.content = String::from_str(HIDDEN_CONTENT);
            r.reported_infringements = None;
            r.ratios = None;
            r.votes = None;
            r.authorized_users = Vec::new();
            assert(r.authorized_users.deep_view() =~= Seq::empty());
        },
    }
    r
}

/// What `caller` is shown of `work`: everything for the author and the
/// collaborators, the content without governance data for paying viewers,
/// and neither for anyone else.
pub fn project(work: &Work, caller: &AccountId) -> (r: Work)
    ensures
        r@ == projected(work@, caller@),
{
    let t = access_tier(work, caller);
    apply_tier(work, t)
}

/// What `caller` is shown of each of `ws`, in order.
pub open spec fn projected_all(ws: Seq<WorkView>, caller: Seq<char>) -> Seq<WorkView> {
    ws.map_values(|w: WorkView| projected(w, caller))
}

/// Projects each of `works` for `caller`, in order.
pub fn project_all(works: &Vec<Work>, caller: &AccountId) -> (r: Vec<Work>)
    ensures
        r.deep_view() == projected_all(works.deep_view(), caller@),
{
    let ghost s = works.deep_view();
    let mut r: Vec<Work> = Vec::new();
    let mut i: usize = 0;
    while i < works.len()
        invariant
            s == works.deep_view(),
            i <= s.len(),
            r.deep_view() == projected_all(s.take(i as int), caller@),
        decreases s.len() - i,
    {
        let ghost before = r.deep_view();
        let p = project(&works[i], caller);
        r.push(p);
        assert(r.deep_view() =~= before.push(p@));
        assert(projected_all(s.take(i + 1), caller@) =~= projected_all(s.take(i as int), caller@).push(projected(s[i as int], caller@)));
        i += 1;
    }
    assert(s.take(i as int) =~= s);
    r
}

/// Redacting a view again to the tier it was redacted to leaves it as it is.
pub proof fn lemma_tier_idempotent(w: WorkView, t: Tier)
    ensures
        with_tier(with_tier(w, t), t) == with_tier(w, t),
{
}

/// For the author, a collaborator or a public caller, projecting the view
/// they were given once more yields that same view.
pub proof fn lemma_projection_idempotent(w: WorkView, caller: Seq<char>)
    requires
        tier_of(w, caller) != Tier::Authorized,
    ensures
        projected(projected(w, caller), caller) == projected(w, caller),
{
    let p = projected(w, caller);
    if tier_of(w, caller) == Tier::Public {
        assert(!has_key::<String>(p.authorized_users, caller));
        assert(tier_of(p, caller) == Tier::Public);
    }
}

} // verus!
