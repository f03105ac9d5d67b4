use vstd::prelude::*;
use crate::consensus::{ballots, cast_vote, resolve_round, round_outcome, with_vote, VOTE_FEE};
use crate::id::{acronym, decimal, generate_id};
use crate::infringement::{record_report, work_reported};
use crate::model::{
    contains_key, find_key, has_key, index_of_key, is_first_key, lemma_first_key_is_index,
    lemma_index_of_key, keys_are_unique, keys_unique, value_total, AccountId, Author, AuthorView, AverageRating, Duplicate,
    GovernanceError, Keyed, Vote, VoteView, Work, WorkId, WorkView,
};
use crate::rating::{mean_of, work_rated};
use crate::ratios::{
    equal_split, equal_split_of, lemma_equal_split_bounded, lemma_valid_ratios_bounded, pay_out,
    payout_ratios, payout_ratios_of, payouts_of, ratios_sum_to_hundred, split_payment,
    valid_opt_ratios, valid_ratios,
};
use crate::visibility::{project, project_all, projected, projected_all};

verus! {

/// The works of one author, in the order they were added.
#[derive(Clone, Debug)]
pub struct AuthorWorks {
    pub author_id: AccountId,
    pub works: Vec<Work>,
}

pub ghost struct AuthorWorksView {
    pub author_id: Seq<char>,
    pub works: Seq<WorkView>,
}

impl DeepView for AuthorWorks {
    type V = AuthorWorksView;

    open spec fn deep_view(&self) -> AuthorWorksView {
        AuthorWorksView { author_id: self.author_id@, works: self.works.deep_view() }
    }
}

impl Keyed for AuthorWorks {
    open spec fn key_of(v: AuthorWorksView) -> Seq<char> {
        v.author_id
    }

    fn key(&self) -> (r: &String) {
        &self.author_id
    }
}

impl Keyed for Work {
    open spec fn key_of(v: WorkView) -> Seq<char> {
        v.id
    }

    fn key(&self) -> (r: &String) {
        &self.id
    }
}

/// The ledger: the registered authors, and each author's list of works.
pub struct Contract {
    pub owner_id: AccountId,
    authors: Vec<Author>,
    works: Vec<AuthorWorks>,
}

pub ghost struct ContractView {
    pub owner_id: Seq<char>,
    pub authors: Seq<AuthorView>,
    pub lists: Seq<AuthorWorksView>,
}

impl View for Contract {
    type V = ContractView;

    closed spec fn view(&self) -> ContractView {
        ContractView {
            owner_id: self.owner_id@,
            authors: self.authors.deep_view(),
            lists: self.works.deep_view(),
        }
    }
}

/// Where the first work with id `id` sits, scanning the lists in order.
pub open spec fn locate(lists: Seq<AuthorWorksView>, id: Seq<char>) -> Option<(int, int)>
    decreases lists.len(),
{
    if lists.len() == 0 {
        None
    } else {
        match locate(lists.drop_last(), id) {
            Some(p) => Some(p),
            None => match index_of_key::<Work>(lists.last().works, id) {
                Some(j) => Some(((lists.len() - 1) as int, j)),
                None => None,
            },
        }
    }
}

/// The first work with id `id`, in any author's list.
pub open spec fn stored_work(v: ContractView, id: Seq<char>) -> Option<WorkView> {
    match locate(v.lists, id) {
        Some(p) => Some(v.lists[p.0].works[p.1]),
        None => None,
    }
}

/// The ledger with the work at list `i`, position `j` replaced by `w`.
pub open spec fn with_work_at(v: ContractView, i: int, j: int, w: WorkView) -> ContractView {
    ContractView {
        lists: v.lists.update(i, AuthorWorksView { works: v.lists[i].works.update(j, w), ..v.lists[i] }),
        ..v
    }
}

/// The ledger with the first work of id `id` replaced by `w`.
pub open spec fn with_stored_work(v: ContractView, id: Seq<char>, w: WorkView) -> ContractView {
    match locate(v.lists, id) {
        Some(p) => with_work_at(v, p.0, p.1, w),
        None => v,
    }
}

/// The ledger with the first work of id `id` removed from its list.
pub open spec fn without_stored_work(v: ContractView, id: Seq<char>) -> ContractView {
    match locate(v.lists, id) {
        Some(p) => ContractView {
            lists: v.lists.update(p.0, AuthorWorksView { works: v.lists[p.0].works.remove(p.1), ..v.lists[p.0] }),
            ..v
        },
        None => v,
    }
}

/// The ledger after `w` is written to the list of `author_id`: it replaces
/// the first work there with the same id, or is appended; a list is opened
/// for an author who has none.
pub open spec fn with_listed_work(v: ContractView, author_id: Seq<char>, w: WorkView) -> ContractView {
    match index_of_key::<AuthorWorks>(v.lists, author_id) {
        Some(i) => match index_of_key::<Work>(v.lists[i].works, w.id) {
            Some(j) => with_work_at(v, i, j, w),
            None => ContractView {
                lists: v.lists.update(i, AuthorWorksView { works: v.lists[i].works.push(w), ..v.lists[i] }),
                ..v
            },
        },
        None => ContractView {
            lists: v.lists.push(AuthorWorksView { author_id, works: seq![w] }),
            ..v
        },
    }
}

/// The registered author with id `id`.
pub open spec fn author_record(v: ContractView, id: Seq<char>) -> Option<AuthorView> {
    match index_of_key::<Author>(v.authors, id) {
        Some(i) => Some(v.authors[i]),
        None => None,
    }
}

/// The ledger with `a` registered, replacing the record of the same id if any.
pub open spec fn with_author(v: ContractView, a: AuthorView) -> ContractView {
    match index_of_key::<Author>(v.authors, a.id) {
        Some(i) => ContractView { authors: v.authors.update(i, a), ..v },
        None => ContractView { authors: v.authors.push(a), ..v },
    }
}

/// The ledger with the record of `id` removed; the author's works stay.
pub open spec fn without_author(v: ContractView, id: Seq<char>) -> ContractView {
    match index_of_key::<Author>(v.authors, id) {
        Some(i) => ContractView { authors: v.authors.remove(i), ..v },
        None => v,
    }
}

/// The works listed under `author_id`.
pub open spec fn works_of(v: ContractView, author_id: Seq<char>) -> Seq<WorkView> {
    match index_of_key::<AuthorWorks>(v.lists, author_id) {
        Some(i) => v.lists[i].works,
        None => Seq::empty(),
    }
}

/// Every stored work, list by list.
pub open spec fn all_works(lists: Seq<AuthorWorksView>) -> Seq<WorkView>
    decreases lists.len(),
{
    if lists.len() == 0 {
        Seq::empty()
    } else {
        all_works(lists.drop_last()) + lists.last().works
    }
}

/// A freshly created work.
pub open spec fn new_work(
    id: Seq<char>,
    name: Seq<char>,
    content: Seq<char>,
    author: AuthorView,
    fee: u128,
    collaborators: Seq<Seq<char>>,
    ratios: Option<Seq<(Seq<char>, u32)>>,
    now: u64,
) -> WorkView {
    WorkView {
        id,
        name,
        content,
        author,
        fee,
        ratings: Seq::empty(),
        average_rating: None,
        published_date: now,
        updated_date: now,
        collaborators,
        reported_infringements: None,
        ratios,
        authorized_users: Seq::empty(),
        votes: None,
    }
}

/// `w` with the given fields changed and its update time set to `now`.
pub open spec fn edited(
    w: WorkView,
    name: Option<Seq<char>>,
    content: Option<Seq<char>>,
    fee: Option<u128>,
    average_rating: Option<AverageRating>,
    ratios: Option<Seq<(Seq<char>, u32)>>,
    now: u64,
) -> WorkView {
    WorkView {
        name: match name {
            Some(n) => n,
            None => w.name,
        },
        content: match content {
            Some(c) => c,
            None => w.content,
        },
        fee: match fee {
            Some(f) => f,
            None => w.fee,
        },
        average_rating: match average_rating {
            Some(a) => Some(a),
            None => w.average_rating,
        },
        ratios: match ratios {
            Some(r) => Some(r),
            None => w.ratios,
        },
        updated_date: now,
        ..w
    }
}

/// `w` with no open voting round.
pub open spec fn round_closed(w: WorkView) -> WorkView {
    WorkView { votes: None, ..w }
}

/// Some of `new` is already among `existing`.
pub open spec fn any_listed(new: Seq<Seq<char>>, existing: Seq<Seq<char>>) -> bool {
    exists|k: int| 0 <= k < new.len() && has_key::<String>(existing, #[trigger] new[k])
}

/// The caller is the work's author or one of its collaborators.
pub open spec fn is_member(w: WorkView, caller: Seq<char>) -> bool {
    caller == w.author.id || has_key::<String>(w.collaborators, caller)
}

/// Every stored work that declares ratios declares ones summing to 100.
pub open spec fn stored_ratios_valid(v: ContractView) -> bool {
    forall|i: int, j: int|
        0 <= i < v.lists.len() && 0 <= j < v.lists[i].works.len()
            ==> valid_opt_ratios(#[trigger] v.lists[i].works[j].ratios)
}

/// Every stored work sits in the list of its own author.
pub open spec fn works_in_own_lists(v: ContractView) -> bool {
    forall|i: int, j: int|
        0 <= i < v.lists.len() && 0 <= j < v.lists[i].works.len()
            ==> (#[trigger] v.lists[i].works[j]).author.id == v.lists[i].author_id
}

/// The invariant of the ledger: declared ratios sum to 100, each author is
/// registered once and has at most one list, and every work sits in the
/// list of its author.
pub open spec fn ledger_wf(v: ContractView) -> bool {
    &&& stored_ratios_valid(v)
    &&& keys_unique::<Author>(v.authors)
    &&& keys_unique::<AuthorWorks>(v.lists)
    &&& works_in_own_lists(v)
}

proof fn lemma_locate(lists: Seq<AuthorWorksView>, id: Seq<char>)
    ensures
        match locate(lists, id) {
            Some(p) => 0 <= p.0 < lists.len() && 0 <= p.1 < lists[p.0].works.len()
                && lists[p.0].works[p.1].id == id,
            None => true,
        },
    decreases lists.len(),
{
    if lists.len() > 0 {
        lemma_locate(lists.drop_last(), id);
        lemma_index_of_key::<Work>(lists.last().works, id);
    }
}

proof fn lemma_locate_prefix(lists: Seq<AuthorWorksView>, id: Seq<char>, k: int)
    requires
        0 <= k <= lists.len(),
        locate(lists.take(k), id) is Some,
    ensures
        locate(lists, id) == locate(lists.take(k), id),
    decreases lists.len() - k,
{
    if k < lists.len() {
        assert(lists.take(k + 1).drop_last() =~= lists.take(k));
        lemma_locate_prefix(lists, id, k + 1);
    } else {
        assert(lists.take(k) =~= lists);
    }
}

/// Tells whether some of `new` is already among `existing`.
pub fn any_already_listed(new: &Vec<AccountId>, existing: &Vec<AccountId>) -> (r: bool)
    ensures
        r == any_listed(new.deep_view(), existing.deep_view()),
{
    let ghost new_ids = new.deep_view();
    let mut k: usize = 0;
    while k < new.len()
        invariant
            new_ids == new.deep_view(),
            k <= new_ids.len(),
            forall|m: int| 0 <= m < k ==> !has_key::<String>(existing.deep_view(), #[trigger] new_ids[m]),
        decreases new_ids.len() - k,
    {
        if contains_key(existing, &new[k]) {
            assert(new_ids[k as int] == new@[k as int]@);
            return true;
        }
        k += 1;
    }
    false
}

proof fn lemma_with_work_at_wf(v: ContractView, i: int, j: int, w: WorkView)
    requires
        ledger_wf(v),
        valid_opt_ratios(w.ratios),
        0 <= i < v.lists.len(),
        0 <= j < v.lists[i].works.len(),
        w.author.id == v.lists[i].author_id,
    ensures
        ledger_wf(with_work_at(v, i, j, w)),
{
    let n = with_work_at(v, i, j, w);
    assert forall|a: int, b: int| 0 <= a < n.lists.len() && 0 <= b < n.lists[a].works.len()
        implies valid_opt_ratios(#[trigger] n.lists[a].works[b].ratios)
            && n.lists[a].works[b].author.id == n.lists[a].author_id by {
        assert(n.lists[a].author_id == v.lists[a].author_id);
        if a != i || b != j {
            assert(n.lists[a].works[b] == v.lists[a].works[b]);
        }
    }
    assert forall|a: int, b: int| #![trigger n.lists[a], n.lists[b]] 0 <= a < b < n.lists.len()
        implies n.lists[a].author_id != n.lists[b].author_id by {
        assert(v.lists[a].author_id != v.lists[b].author_id);
    }
}

proof fn lemma_without_work_wf(v: ContractView, i: int, j: int)
    requires
        ledger_wf(v),
        0 <= i < v.lists.len(),
        0 <= j < v.lists[i].works.len(),
    ensures
        ledger_wf(ContractView {
            lists: v.lists.update(i, AuthorWorksView { works: v.lists[i].works.remove(j), ..v.lists[i] }),
            ..v
        }),
{
    let n = ContractView {
        lists: v.lists.update(i, AuthorWorksView { works: v.lists[i].works.remove(j), ..v.lists[i] }),
        ..v
    };
    assert forall|a: int, b: int| 0 <= a < n.lists.len() && 0 <= b < n.lists[a].works.len()
        implies valid_opt_ratios(#[trigger] n.lists[a].works[b].ratios)
            && n.lists[a].works[b].author.id == n.lists[a].author_id by {
        assert(n.lists[a].author_id == v.lists[a].author_id);
        if a == i && b >= j {
            assert(n.lists[a].works[b] == v.lists[a].works[b + 1]);
        } else {
            assert(n.lists[a].works[b] == v.lists[a].works[b]);
        }
    }
    assert forall|a: int, b: int| #![trigger n.lists[a], n.lists[b]] 0 <= a < b < n.lists.len()
        implies n.lists[a].author_id != n.lists[b].author_id by {
        assert(v.lists[a].author_id != v.lists[b].author_id);
    }
}

proof fn lemma_with_listed_work_wf(v: ContractView, author_id: Seq<char>, w: WorkView)
    requires
        ledger_wf(v),
        valid_opt_ratios(w.ratios),
        w.author.id == author_id,
    ensures
        ledger_wf(with_listed_work(v, author_id, w)),
{
    lemma_index_of_key::<AuthorWorks>(v.lists, author_id);
    let n = with_listed_work(v, author_id, w);
    match index_of_key::<AuthorWorks>(v.lists, author_id) {
        Some(i) => {
            lemma_index_of_key::<Work>(v.lists[i].works, w.id);
            match index_of_key::<Work>(v.lists[i].works, w.id) {
                Some(j) => lemma_with_work_at_wf(v, i, j, w),
                None => {
                    assert forall|a: int, b: int| 0 <= a < n.lists.len() && 0 <= b < n.lists[a].works.len()
                        implies valid_opt_ratios(#[trigger] n.lists[a].works[b].ratios)
                            && n.lists[a].works[b].author.id == n.lists[a].author_id by {
                        assert(n.lists[a].author_id == v.lists[a].author_id);
                        if a != i || b < v.lists[i].works.len() {
                            assert(n.lists[a].works[b] == v.lists[a].works[b]);
                        }
                    }
                    assert forall|a: int, b: int| #![trigger n.lists[a], n.lists[b]] 0 <= a < b < n.lists.len()
                        implies n.lists[a].author_id != n.lists[b].author_id by {
                        assert(v.lists[a].author_id != v.lists[b].author_id);
                    }
                },
            }
        },
        None => {
            assert forall|a: int, b: int| 0 <= a < n.lists.len() && 0 <= b < n.lists[a].works.len()
                implies valid_opt_ratios(#[trigger] n.lists[a].works[b].ratios)
                    && n.lists[a].works[b].author.id == n.lists[a].author_id by {
                if a < v.lists.len() {
                    assert(n.lists[a] == v.lists[a]);
                }
            }
            assert forall|a: int, b: int| #![trigger n.lists[a], n.lists[b]] 0 <= a < b < n.lists.len()
                implies n.lists[a].author_id != n.lists[b].author_id by {
                if b < v.lists.len() {
                    assert(v.lists[a].author_id != v.lists[b].author_id);
                } else {
                    assert(n.lists[a] == v.lists[a]);
                }
            }
        },
    }
}

proof fn lemma_with_author_wf(v: ContractView, a: AuthorView)
    requires
        ledger_wf(v),
    ensures
        ledger_wf(with_author(v, a)),
{
    lemma_index_of_key::<Author>(v.authors, a.id);
    let n = with_author(v, a);
    assert forall|x: int, y: int| #![trigger n.authors[x], n.authors[y]] 0 <= x < y < n.authors.len()
        implies n.authors[x].id != n.authors[y].id by {
        if y < v.authors.len() {
            assert(v.authors[x].id != v.authors[y].id);
        } else {
            assert(n.authors[x] == v.authors[x]);
        }
    }
}

proof fn lemma_without_author_wf(v: ContractView, id: Seq<char>)
    requires
        ledger_wf(v),
        author_record(v, id) is Some,
    ensures
        ledger_wf(without_author(v, id)),
        author_record(without_author(v, id), id) is None,
{
    lemma_index_of_key::<Author>(v.authors, id);
    let i = index_of_key::<Author>(v.authors, id).unwrap();
    let n = without_author(v, id);
    assert(n.authors == v.authors.remove(i));
    assert forall|x: int, y: int| #![trigger n.authors[x], n.authors[y]] 0 <= x < y < n.authors.len()
        implies n.authors[x].id != n.authors[y].id by {
        let ox = if x < i { x } else { x + 1 };
        let oy = if y < i { y } else { y + 1 };
        assert(n.authors[x] == v.authors[ox]);
        assert(n.authors[y] == v.authors[oy]);
        assert(v.authors[ox].id != v.authors[oy].id);
    }
    assert(!has_key::<Author>(n.authors, id)) by {
        if has_key::<Author>(n.authors, id) {
            let x = choose|x: int| 0 <= x < n.authors.len() && Author::key_of(#[trigger] n.authors[x]) == id;
            if x < i {
                assert(n.authors[x] == v.authors[x]);
                assert(v.authors[x].id != v.authors[i].id);
            } else {
                assert(n.authors[x] == v.authors[x + 1]);
                assert(v.authors[i].id != v.authors[x + 1].id);
            }
        }
    }
    lemma_index_of_key::<Author>(n.authors, id);
}

/// In a well-formed ledger, every stored work that declares ratios declares
/// percentages that sum to exactly 100.
pub proof fn lemma_stored_ratios_sum_to_hundred(c: &Contract, work_id: Seq<char>)
    requires
        c.wf(),
    ensures
        stored_work(c@, work_id) matches Some(w) ==> (w.ratios matches Some(rs) ==> value_total(rs) == 100),
{
    lemma_locate(c@.lists, work_id);
    if let Some(p) = locate(c@.lists, work_id) {
        assert(valid_opt_ratios(c@.lists[p.0].works[p.1].ratios));
    }
}

proof fn lemma_locate_after_write(lists: Seq<AuthorWorksView>, id: Seq<char>, i: int, j: int, x: WorkView)
    requires
        locate(lists, id) == Some((i, j)),
        x.id == id,
    ensures
        locate(lists.update(i, AuthorWorksView { works: lists[i].works.update(j, x), ..lists[i] }), id) == Some((i, j)),
    decreases lists.len(),
{
    lemma_locate(lists, id);
    let n = lists.update(i, AuthorWorksView { works: lists[i].works.update(j, x), ..lists[i] });
    if locate(lists.drop_last(), id) is Some {
        lemma_locate(lists.drop_last(), id);
        assert(n.drop_last() =~= lists.drop_last().update(i, AuthorWorksView { works: lists[i].works.update(j, x), ..lists[i] }));
        lemma_locate_after_write(lists.drop_last(), id, i, j, x);
    } else {
        assert(i == lists.len() - 1);
        assert(n.drop_last() =~= lists.drop_last());
        let ws = lists.last().works;
        lemma_index_of_key::<Work>(ws, id);
        assert(is_first_key::<Work>(ws, id, j));
        let nw = ws.update(j, x);
        assert(n.last().works == nw);
        assert(is_first_key::<Work>(nw, id, j)) by {
            assert forall|b: int| 0 <= b < j implies #[trigger] nw[b].id != id by {
                assert(nw[b] == ws[b]);
            }
        }
        lemma_first_key_is_index::<Work>(nw, id, j);
    }
}

/// Writing a work back under its own id makes it the stored work of that id.
pub proof fn lemma_written_work_is_stored(v: ContractView, id: Seq<char>, x: WorkView)
    requires
        stored_work(v, id) is Some,
        x.id == id,
    ensures
        stored_work(with_stored_work(v, id, x), id) == Some(x),
{
    let p = locate(v.lists, id).unwrap();
    lemma_locate(v.lists, id);
    lemma_locate_after_write(v.lists, id, p.0, p.1, x);
}

/// A round that was resolved, by approval or by rejection, leaves the stored
/// work with no open round, so the next ballot opens a fresh round holding
/// that ballot alone.
pub proof fn lemma_resolved_round_restarts(v: ContractView, id: Seq<char>, x: WorkView, voter: Seq<char>, decision: bool, now: u64)
    requires
        stored_work(v, id) is Some,
        x.id == id,
        x.votes is None,
    ensures
        stored_work(with_stored_work(v, id, x), id) == Some(x),
        with_vote(x, voter, decision, now).votes == Some(seq![VoteView { voter, decision, timestamp: now }]),
{
    lemma_written_work_is_stored(v, id, x);
    assert(Seq::<VoteView>::empty().push(VoteView { voter, decision, timestamp: now }) =~= seq![VoteView { voter, decision, timestamp: now }]);
}

/// After a rating, the stored work's cached average is the mean of the
/// ratings it keeps, and is absent exactly when none remain.
pub proof fn lemma_rated_work_average(v: ContractView, id: Seq<char>, voter: Seq<char>, rating: u32, a: AuthorView)
    requires
        stored_work(v, id) is Some,
    ensures
        ({
            let x = work_rated(stored_work(v, id).unwrap(), voter, rating);
            &&& stored_work(with_author(with_stored_work(v, id, x), a), id) == Some(x)
            &&& x.average_rating == mean_of(x.ratings)
            &&& (x.average_rating is None <==> x.ratings.len() == 0)
        }),
{
    lemma_locate(v.lists, id);
    let x = work_rated(stored_work(v, id).unwrap(), voter, rating);
    lemma_written_work_is_stored(v, id, x);
}

proof fn lemma_all_works_step(lists: Seq<AuthorWorksView>, i: int)
    requires
        0 <= i < lists.len(),
    ensures
        all_works(lists.take(i + 1)) == all_works(lists.take(i)) + lists[i].works,
{
    assert(lists.take(i + 1).drop_last() =~= lists.take(i));
}

impl Contract {
    /// The invariant of the ledger.
    pub open spec fn wf(&self) -> bool {
        ledger_wf(self@)
    }

    /// An empty ledger owned by `owner_id`.
    pub fn new(owner_id: AccountId) -> (r: Contract)
        ensures
            r.wf(),
            r@.owner_id == owner_id@,
            r@.authors.len() == 0,
            r@.lists.len() == 0,
    {
        let r = Contract { owner_id, authors: Vec::new(), works: Vec::new() };
        assert(r@.lists =~= Seq::<AuthorWorksView>::empty());
        r
    }

    /// Rebuilds a ledger from stored parts; `None` when they break the
    /// invariant: ratios not summing to 100, an author registered twice or
    /// with two lists, or a work in another author's list.
    pub fn from_parts(owner_id: AccountId, authors: Vec<Author>, works: Vec<AuthorWorks>) -> (r: Option<Contract>)
        ensures
            r is Some <==> ledger_wf(ContractView {
                owner_id: owner_id@,
                authors: authors.deep_view(),
                lists: works.deep_view(),
            }),
            r matches Some(c) ==> c.wf() && c@ == (ContractView {
                owner_id: owner_id@,
                authors: authors.deep_view(),
                lists: works.deep_view(),
            }),
    {
        if !keys_are_unique(&authors) || !keys_are_unique(&works) {
            return None;
        }
        let ghost lists = works.deep_view();
        let mut i: usize = 0;
        while i < works.len()
            invariant
                lists == works.deep_view(),
                i <= lists.len(),
                forall|a: int, b: int| 0 <= a < i && 0 <= b < lists[a].works.len()
                    ==> valid_opt_ratios(#[trigger] lists[a].works[b].ratios),
                forall|a: int, b: int| 0 <= a < i && 0 <= b < lists[a].works.len()
                    ==> (#[trigger] lists[a].works[b]).author.id == lists[a].author_id,
            decreases lists.len() - i,
        {
            assert(lists[i as int] == works@[i as int].deep_view());
            let list = &works[i].works;
            let ghost ws = list.deep_view();
            let mut j: usize = 0;
            while j < list.len()
                invariant
                    lists == works.deep_view(),
                    i < lists.len(),
                    ws == lists[i as int].works,
                    ws == list.deep_view(),
                    j <= ws.len(),
                    forall|a: int, b: int| 0 <= a < i && 0 <= b < lists[a].works.len()
                        ==> valid_opt_ratios(#[trigger] lists[a].works[b].ratios),
                    forall|a: int, b: int| 0 <= a < i && 0 <= b < lists[a].works.len()
                        ==> (#[trigger] lists[a].works[b]).author.id == lists[a].author_id,
                    forall|b: int| 0 <= b < j ==> valid_opt_ratios(#[trigger] ws[b].ratios),
                    forall|b: int| 0 <= b < j ==> (#[trigger] ws[b]).author.id == lists[i as int].author_id,
                decreases ws.len() - j,
            {
                assert(ws[j as int] == list@[j as int].deep_view());
                if list[j].author.id != works[i].author_id {
                    return None;
                }
                if let Some(rs) = &list[j].ratios {
                    if !ratios_sum_to_hundred(rs) {
                        assert(!valid_opt_ratios(lists[i as int].works[j as int].ratios));
                        return None;
                    }
                }
                j += 1;
            }
            i += 1;
        }
        Some(Contract { owner_id, authors, works })
    }

    /// Takes the ledger apart into its owner, its authors and its lists of works.
    pub fn into_parts(self) -> (r: (AccountId, Vec<Author>, Vec<AuthorWorks>))
        ensures
            r.0@ == self@.owner_id,
            r.1.deep_view() == self@.authors,
            r.2.deep_view() == self@.lists,
    {
        (self.owner_id, self.authors, self.works)
    }

    fn locate_work(&self, id: &String) -> (r: Option<(usize, usize)>)
        ensures
            match r {
                Some(p) => locate(self@.lists, id@) == Some((p.0 as int, p.1 as int)),
                None => locate(self@.lists, id@) is None,
            },
            r matches Some(p) ==> p.0 < self@.lists.len() && p.1 < self@.lists[p.0 as int].works.len(),
    {
        let ghost lists = self@.lists;
        let mut i: usize = 0;
        while i < self.works.len()
            invariant
                lists == self@.lists,
                i <= lists.len(),
                locate(lists.take(i as int), id@) is None,
            decreases lists.len() - i,
        {
            assert(lists.take(i + 1).drop_last() =~= lists.take(i as int));
            assert(lists[i as int] == self.works@[i as int].deep_view());
            match find_key(&self.works[i].works, id) {
                Some(j) => {
                    proof {
                        assert(locate(lists.take(i + 1), id@) == Some((i as int, j as int)));
                        lemma_locate_prefix(lists, id@, i + 1);
                        lemma_locate(lists, id@);
                    }
                    return Some((i, j));
                },
                None => {},
            }
            i += 1;
        }
        assert(lists.take(i as int) =~= lists);
        None
    }

    fn replace_work(&mut self, i: usize, j: usize, w: Work)
        requires
            i < old(self)@.lists.len(),
            j < old(self)@.lists[i as int].works.len(),
        ensures
            final(self)@ == with_work_at(old(self)@, i as int, j as int, w@),
    {
        let ghost v = self@;
        let ghost old_works = self.works@;
        self.works[i].works.set(j, w);
        assert(self.works@[i as int].works.deep_view() =~= v.lists[i as int].works.update(j as int, w@));
        assert(forall|k: int| 0 <= k < old_works.len() && k != i ==> self.works@[k] == old_works[k]);
        assert(self.works.deep_view() =~= with_work_at(v, i as int, j as int, w@).lists);
    }

    fn set_author(&mut self, a: Author)
        ensures
            final(self)@ == with_author(old(self)@, a@),
    {
        let ghost v = self@;
        match find_key(&self.authors, &a.id) {
            Some(i) => {
                self.authors.set(i, a);
                assert(self@.authors =~= v.authors.update(i as int, a@));
            },
            None => {
                self.authors.push(a);
                assert(self@.authors =~= v.authors.push(a@));
            },
        }
    }

    /// Registers the caller as an author, replacing an earlier record of theirs.
    pub fn create_author(&mut self, caller: &AccountId, name: String, age: u32) -> (r: Author)
        requires
            old(self).wf(),
        ensures
            final(self).wf(),
            r@ == (AuthorView { id: caller@, name: name@, age, rated_works: Seq::empty() }),
            final(self)@ == with_author(old(self)@, r@),
    {
        let author = Author { id: caller.clone(), name, age, rated_works: Vec::new() };
        assert(author@.rated_works =~= Seq::empty());
        proof {
            lemma_with_author_wf(self@, author@);
        }
        self.set_author(author.duplicate());
        author
    }

    /// Changes the caller's name and age, where given.
    /// Fails with `NotFound` when the caller is not a registered author.
    pub fn update_author(&mut self, caller: &AccountId, name: Option<String>, age: Option<u32>) -> (r: Result<Author, GovernanceError>)
        requires
            old(self).wf(),
        ensures
            final(self).wf(),
            match author_record(old(self)@, caller@) {
                None => r == Err::<Author, GovernanceError>(GovernanceError::NotFound) && final(self)@ == old(self)@,
                Some(a) => r matches Ok(n) && n@ == (AuthorView {
                    name: match name { Some(s) => s@, None => a.name },
                    age: match age { Some(x) => x, None => a.age },
                    ..a
                }) && final(self)@ == with_author(old(self)@, n@),
            },
    {
        let i = match find_key(&self.authors, caller) {
            Some(i) => i,
            None => return Err(GovernanceError::NotFound),
        };
        proof {
            lemma_index_of_key::<Author>(self@.authors, caller@);
        }
        let mut author = self.authors[i].duplicate();
        if let Some(n) = name {
            author.name = n;
        }
        if let Some(x) = age {
            author.age = x;
        }
        proof {
            lemma_with_author_wf(self@, author@);
        }
        self.set_author(author.duplicate());
        Ok(author)
    }

    /// Removes the record of `author_id`; only that author may do so, and
    /// their works stay where they are.
    /// Fails with `NotFound` when no such author exists, and with
    /// `Unauthorized` when the caller is someone else.
    pub fn delete_author(&mut self, caller: &AccountId, author_id: &AccountId) -> (r: Result<(), GovernanceError>)
        requires
            old(self).wf(),
        ensures
            final(self).wf(),
            author_record(old(self)@, author_id@) is None ==> r == Err::<(), GovernanceError>(GovernanceError::NotFound) && final(self)@ == old(self)@,
            author_record(old(self)@, author_id@) is Some && author_id@ != caller@ ==> r == Err::<(), GovernanceError>(GovernanceError::Unauthorized) && final(self)@ == old(self)@,
            author_record(old(self)@, author_id@) is Some && author_id@ == caller@ ==> r is Ok
                && final(self)@ == without_author(old(self)@, author_id@)
                && author_record(final(self)@, author_id@) is None,
    {
        let ghost v = self@;
        let i = match find_key(&self.authors, author_id) {
            Some(i) => i,
            None => return Err(GovernanceError::NotFound),
        };
        proof {
            lemma_index_of_key::<Author>(self@.authors, author_id@);
        }
        if *author_id != *caller {
            return Err(GovernanceError::Unauthorized);
        }
        proof {
            lemma_without_author_wf(v, author_id@);
        }
        self.authors.remove(i);
        assert(self@.authors =~= v.authors.remove(i as int));
        Ok(())
    }

    /// The author with id `author_id`.
    pub fn get_author_by_id(&self, author_id: &AccountId) -> (r: Option<Author>)
        ensures
            match author_record(self@, author_id@) {
                Some(a) => r matches Some(x) && x@ == a,
                None => r is None,
            },
    {
        match find_key(&self.authors, author_id) {
            Some(i) => {
                proof {
                    lemma_index_of_key::<Author>(self@.authors, author_id@);
                }
                Some(self.authors[i].duplicate())
            },
            None => None,
        }
    }

    /// Every registered author, in order of registration.
    pub fn get_all_authors(&self) -> (r: Vec<Author>)
        ensures
            r.deep_view() == self@.authors,
    {
        crate::model::duplicate_vec(&self.authors)
    }

    /// Writes `work` to the list of `author_id`, replacing the work there with
    /// the same id, or appending it.
    /// Fails with `ValidationFailed`, changing nothing, when `work` belongs
    /// to another author or declares ratios that do not sum to 100.
    pub fn update_work_list(&mut self, author_id: &AccountId, work: &Work) -> (r: Result<(), GovernanceError>)
        requires
            old(self).wf(),
        ensures
            final(self).wf(),
            work@.author.id != author_id@ || !valid_opt_ratios(work@.ratios)
                ==> r == Err::<(), GovernanceError>(GovernanceError::ValidationFailed) && final(self)@ == old(self)@,
            work@.author.id == author_id@ && valid_opt_ratios(work@.ratios)
                ==> r is Ok && final(self)@ == with_listed_work(old(self)@, author_id@, work@),
    {
        if work.author.id != *author_id {
            return Err(GovernanceError::ValidationFailed);
        }
        if let Some(rs) = &work.ratios {
            if !ratios_sum_to_hundred(rs) {
                return Err(GovernanceError::ValidationFailed);
            }
        }
        let ghost v = self@;
        proof {
            lemma_with_listed_work_wf(v, author_id@, work@);
        }
        match find_key(&self.works, author_id) {
            Some(i) => {
                proof {
                    lemma_index_of_key::<AuthorWorks>(v.lists, author_id@);
                }
                match find_key(&self.works[i].works, &work.id) {
                    Some(j) => {
                        proof {
                            lemma_index_of_key::<Work>(v.lists[i as int].works, work@.id);
                        }
                        self.replace_work(i, j, work.duplicate());
                    },
                    None => {
                        let ghost old_works = self.works@;
                        self.works[i].works.push(work.duplicate());
                        assert(self.works@[i as int].works.deep_view() =~= v.lists[i as int].works.push(work@));
                        assert(forall|k: int| 0 <= k < old_works.len() && k != i ==> self.works@[k] == old_works[k]);
                        assert(self@.lists =~= with_listed_work(v, author_id@, work@).lists);
                    },
                }
            },
            None => {
                let mut list: Vec<Work> = Vec::new();
                list.push(work.duplicate());
                assert(list.deep_view() =~= seq![work@]);
                self.works.push(AuthorWorks { author_id: author_id.clone(), works: list });
                assert(self@.lists =~= with_listed_work(v, author_id@, work@).lists);
            },
        }
        Ok(())
    }

    /// The work with id `work_id`, as `caller` may see it.
    pub fn get_work_by_id(&self, caller: &AccountId, work_id: &WorkId) -> (r: Option<Work>)
        ensures
            match stored_work(self@, work_id@) {
                Some(w) => r matches Some(x) && x@ == projected(w, caller@),
                None => r is None,
            },
    {
        match self.locate_work(work_id) {
            Some((i, j)) => Some(project(&self.works[i].works[j], caller)),
            None => None,
        }
    }

    /// Creates a work owned by the caller, with an id made of the title's
    /// initials and `now`, and appends it to the caller's list.
    /// Fails with `NotFound` when the caller is not a registered author, and
    /// with `ValidationFailed` when `ratios` are given and do not sum to 100.
    pub fn create_work(
        &mut self,
        caller: &AccountId,
        now: u64,
        name: String,
        content: String,
        collaborators: Option<Vec<AccountId>>,
        fee: Option<u128>,
        ratios: Option<Vec<(AccountId, u32)>>,
    ) -> (r: Result<Work, GovernanceError>)
        requires
            old(self).wf(),
        ensures
            final(self).wf(),
            match author_record(old(self)@, caller@) {
                None => r == Err::<Work, GovernanceError>(GovernanceError::NotFound) && final(self)@ == old(self)@,
                Some(a) => if !valid_opt_ratios(ratios.deep_view()) {
                    r == Err::<Work, GovernanceError>(GovernanceError::ValidationFailed) && final(self)@ == old(self)@
                } else {
                    r matches Ok(w) && w@ == new_work(
                        acronym(name@) + decimal(now as nat),
                        name@,
                        content@,
                        a,
                        match fee {
                            Some(f) => f,
                            None => 0,
                        },
                        match collaborators.deep_view() {
                            Some(c) => c,
                            None => Seq::empty(),
                        },
                        ratios.deep_view(),
                        now,
                    ) && final(self)@ == with_listed_work(old(self)@, caller@, w@)
                },
            },
    {
        let ai = match find_key(&self.authors, caller) {
            Some(i) => i,
            None => return Err(GovernanceError::NotFound),
        };
        proof {
            lemma_index_of_key::<Author>(self@.authors, caller@);
        }
        if let Some(rs) = &ratios {
            if !ratios_sum_to_hundred(rs) {
                return Err(GovernanceError::ValidationFailed);
            }
        }
        let id = generate_id(name.clone(), now);
        let collaborators_list = match collaborators {
            Some(c) => c,
            None => Vec::new(),
        };
        assert(collaborators_list.deep_view() == match collaborators.deep_view() {
            Some(c) => c,
            None => Seq::<Seq<char>>::empty(),
        }) by {
            if collaborators is None {
                assert(collaborators_list.deep_view() =~= Seq::<Seq<char>>::empty());
            }
        }
        let fee = match fee {
            Some(f) => f,
            None => 0,
        };
        let work = Work {
            id,
            name,
            content,
            author: self.authors[ai].duplicate(),
            fee,
            ratings: Vec::new(),
            average_rating: None,
            published_date: now,
            updated_date: now,
            collaborators: collaborators_list,
            reported_infringements: None,
            ratios,
            authorized_users: Vec::new(),
            votes: None,
        };
        assert(work.ratings.deep_view() =~= Seq::empty());
        assert(work.authorized_users.deep_view() =~= Seq::empty());
        let _ = self.update_work_list(caller, &work);
        Ok(work)
    }

    /// Changes the given fields of the caller's work `work_id` and stamps it with `now`.
    /// Fails with `NotFound` when there is no such work, with `Unauthorized`
    /// when the caller is not its author, and with `ValidationFailed` when
    /// `ratios` are given and do not sum to 100.
    pub fn update_work(
        &mut self,
        caller: &AccountId,
        now: u64,
        work_id: &WorkId,
        name: Option<String>,
        content: Option<String>,
        fee: Option<u128>,
        average_rating: Option<AverageRating>,
        ratios: Option<Vec<(AccountId, u32)>>,
    ) -> (r: Result<Work, GovernanceError>)
        requires
            old(self).wf(),
        ensures
            final(self).wf(),
            match stored_work(old(self)@, work_id@) {
                None => r == Err::<Work, GovernanceError>(GovernanceError::NotFound) && final(self)@ == old(self)@,
                Some(w) => if caller@ != w.author.id {
                    r == Err::<Work, GovernanceError>(GovernanceError::Unauthorized) && final(self)@ == old(self)@
                } else if !valid_opt_ratios(ratios.deep_view()) {
                    r == Err::<Work, GovernanceError>(GovernanceError::ValidationFailed) && final(self)@ == old(self)@
                } else {
                    r matches Ok(n) && n@ == edited(w, name.deep_view(), content.deep_view(), fee, average_rating, ratios.deep_view(), now)
                        && final(self)@ == with_stored_work(old(self)@, work_id@, n@)
                },
            },
    {
        let (i, j) = match self.locate_work(work_id) {
            Some(p) => p,
            None => return Err(GovernanceError::NotFound),
        };
        let mut work = self.works[i].works[j].duplicate();
        if work.author.id != *caller {
            return Err(GovernanceError::Unauthorized);
        }
        if let Some(rs) = &ratios {
            if !ratios_sum_to_hundred(rs) {
                return Err(GovernanceError::ValidationFailed);
            }
        }
        if let Some(n) = name {
            work.name = n;
        }
        if let Some(c) = content {
            work.content = c;
        }
        if let Some(a) = average_rating {
            work.average_rating = Some(a);
        }
        if let Some(rs) = ratios {
            work.ratios = Some(rs);
        }
        if let Some(f) = fee {
            work.fee = f;
        }
        work.updated_date = now;
        proof {
            lemma_with_work_at_wf(self@, i as int, j as int, work@);
        }
        self.replace_work(i, j, work.duplicate());
        Ok(work)
    }

    /// Deletes the caller's work `work_id` once the open round approves it.
    /// Fails with `NotFound` when there is no such work, with `Unauthorized`
    /// when the caller is not its author, with `QuorumNotMet` (the round
    /// stays open) when too few votes were cast or the caller has not voted,
    /// and with `ConsensusRejected` (the round is closed) when agreeing
    /// votes do not outnumber the others.
    pub fn delete_work(&mut self, caller: &AccountId, work_id: &WorkId) -> (r: Result<(), GovernanceError>)
        requires
            old(self).wf(),
        ensures
            final(self).wf(),
            match stored_work(old(self)@, work_id@) {
                None => r == Err::<(), GovernanceError>(GovernanceError::NotFound) && final(self)@ == old(self)@,
                Some(w) => if caller@ != w.author.id {
                    r == Err::<(), GovernanceError>(GovernanceError::Unauthorized) && final(self)@ == old(self)@
                } else {
                    r == round_outcome(w, caller@) && match round_outcome(w, caller@) {
                        Ok(_) => final(self)@ == without_stored_work(old(self)@, work_id@),
                        Err(GovernanceError::ConsensusRejected) => final(self)@ == with_stored_work(old(self)@, work_id@, round_closed(w)),
                        Err(_) => final(self)@ == old(self)@,
                    }
                },
            },
    {
        let (i, j) = match self.locate_work(work_id) {
            Some(p) => p,
            None => return Err(GovernanceError::NotFound),
        };
        if self.works[i].works[j].author.id != *caller {
            return Err(GovernanceError::Unauthorized);
        }
        match resolve_round(&self.works[i].works[j], caller) {
            Ok(()) => {
                let ghost v = self@;
                let ghost old_works = self.works@;
                self.works[i].works.remove(j);
                assert(self.works@[i as int].works.deep_view() =~= v.lists[i as int].works.remove(j as int));
                assert(forall|k: int| 0 <= k < old_works.len() && k != i ==> self.works@[k] == old_works[k]);
                assert(self@.lists =~= without_stored_work(v, work_id@).lists);
                proof {
                    lemma_without_work_wf(v, i as int, j as int);
                }
                Ok(())
            },
            Err(e) => {
                if e == GovernanceError::ConsensusRejected {
                    let mut work = self.works[i].works[j].duplicate();
                    work.votes = None;
                    proof {
                        lemma_with_work_at_wf(self@, i as int, j as int, work@);
                    }
                    self.replace_work(i, j, work);
                }
                Err(e)
            },
        }
    }

    /// The works of `author_id`, each as `caller` may see it.
    pub fn get_all_works_of_author(&self, caller: &AccountId, author_id: &AccountId) -> (r: Vec<Work>)
        ensures
            r.deep_view() == projected_all(works_of(self@, author_id@), caller@),
    {
        match find_key(&self.works, author_id) {
            Some(i) => {
                proof {
                    lemma_index_of_key::<AuthorWorks>(self@.lists, author_id@);
                }
                project_all(&self.works[i].works, caller)
            },
            None => {
                let r: Vec<Work> = Vec::new();
                assert(r.deep_view() =~= projected_all(Seq::empty(), caller@));
                r
            },
        }
    }

    /// Every stored work, list by list, each as `caller` may see it.
    pub fn get_all_works(&self, caller: &AccountId) -> (r: Vec<Work>)
        ensures
            r.deep_view() == projected_all(all_works(self@.lists), caller@),
    {
        let ghost lists = self@.lists;
        let mut out: Vec<Work> = Vec::new();
        let mut i: usize = 0;
        assert(out.deep_view() =~= projected_all(all_works(lists.take(0)), caller@));
        while i < self.works.len()
            invariant
                lists == self@.lists,
                i <= lists.len(),
                out.deep_view() == projected_all(all_works(lists.take(i as int)), caller@),
            decreases lists.len() - i,
        {
            let ghost before = out.deep_view();
            let mut part = project_all(&self.works[i].works, caller);
            let ghost added = part.deep_view();
            out.append(&mut part);
            proof {
                lemma_all_works_step(lists, i as int);
                assert(lists[i as int] == self.works@[i as int].deep_view());
                assert(out.deep_view() =~= before + added);
                assert(projected_all(all_works(lists.take(i as int)) + lists[i as int].works, caller@)
                    =~= projected_all(all_works(lists.take(i as int)), caller@) + projected_all(lists[i as int].works, caller@));
            }
            i += 1;
        }
        assert(lists.take(i as int) =~= lists);
        out
    }

    /// Records the caller's rating of work `work_id`, recomputes its average,
    /// and appends (work id, rating) to the caller's own rating history.
    /// Fails with `NotFound` when there is no such work, with
    /// `ValidationFailed` when `rating` is over 5, and with `NotFound` when
    /// the caller is not a registered author.
    pub fn rate_work(&mut self, caller: &AccountId, work_id: &WorkId, rating: u32) -> (r: Result<(), GovernanceError>)
        requires
            old(self).wf(),
        ensures
            final(self).wf(),
            match stored_work(old(self)@, work_id@) {
                None => r == Err::<(), GovernanceError>(GovernanceError::NotFound) && final(self)@ == old(self)@,
                Some(w) => if rating > 5 {
                    r == Err::<(), GovernanceError>(GovernanceError::ValidationFailed) && final(self)@ == old(self)@
                } else {
                    match author_record(old(self)@, caller@) {
                        None => r == Err::<(), GovernanceError>(GovernanceError::NotFound) && final(self)@ == old(self)@,
                        Some(a) => r is Ok && final(self)@ == with_author(
                            with_stored_work(old(self)@, work_id@, work_rated(w, caller@, rating)),
                            AuthorView { rated_works: a.rated_works.push((w.id, rating)), ..a },
                        ),
                    }
                },
            },
    {
        let (i, j) = match self.locate_work(work_id) {
            Some(p) => p,
            None => return Err(GovernanceError::NotFound),
        };
        if rating > 5 {
            return Err(GovernanceError::ValidationFailed);
        }
        let ai = match find_key(&self.authors, caller) {
            Some(k) => k,
            None => return Err(GovernanceError::NotFound),
        };
        proof {
            lemma_index_of_key::<Author>(self@.authors, caller@);
        }
        let mut work = self.works[i].works[j].duplicate();
        let _ = work.rate(caller, rating);
        let mut author = self.authors[ai].duplicate();
        let ghost history = author@.rated_works;
        author.rated_works.push((work.id.clone(), rating));
        assert(author@.rated_works =~= history.push((work@.id, rating)));
        proof {
            lemma_with_work_at_wf(self@, i as int, j as int, work@);
        }
        self.replace_work(i, j, work);
        self.set_author(author);
        Ok(())
    }

    /// Adds `collaborators` to work `work_id` once the open round approves
    /// it, and closes the round.
    /// Fails with `NotFound` when there is no such work, with `Unauthorized`
    /// when the caller is neither its author nor a collaborator, with
    /// `ValidationFailed` when one of `collaborators` is already one, with
    /// `QuorumNotMet` (the round stays open) when too few votes were cast or
    /// the caller has not voted, and with `ConsensusRejected` (the round is
    /// closed) when agreeing votes do not outnumber the others.
    pub fn add_collaborator(&mut self, caller: &AccountId, work_id: &WorkId, collaborators: Vec<AccountId>) -> (r: Result<(), GovernanceError>)
        requires
            old(self).wf(),
        ensures
            final(self).wf(),
            match stored_work(old(self)@, work_id@) {
                None => r == Err::<(), GovernanceError>(GovernanceError::NotFound) && final(self)@ == old(self)@,
                Some(w) => if !is_member(w, caller@) {
                    r == Err::<(), GovernanceError>(GovernanceError::Unauthorized) && final(self)@ == old(self)@
                } else if any_listed(collaborators.deep_view(), w.collaborators) {
                    r == Err::<(), GovernanceError>(GovernanceError::ValidationFailed) && final(self)@ == old(self)@
                } else {
                    r == round_outcome(w, caller@) && match round_outcome(w, caller@) {
                        Ok(_) => final(self)@ == with_stored_work(old(self)@, work_id@, WorkView {
                            collaborators: w.collaborators + collaborators.deep_view(),
                            votes: None,
                            ..w
                        }),
                        Err(GovernanceError::ConsensusRejected) => final(self)@ == with_stored_work(old(self)@, work_id@, round_closed(w)),
                        Err(_) => final(self)@ == old(self)@,
                    }
                },
            },
    {
        let (i, j) = match self.locate_work(work_id) {
            Some(p) => p,
            None => return Err(GovernanceError::NotFound),
        };
        let mut work = self.works[i].works[j].duplicate();
        if !(work.author.id == *caller || contains_key(&work.collaborators, caller)) {
            return Err(GovernanceError::Unauthorized);
        }
        if any_already_listed(&collaborators, &work.collaborators) {
            return Err(GovernanceError::ValidationFailed);
        }
        let ghost new_ids = collaborators.deep_view();
        let outcome = resolve_round(&work, caller);
        match outcome {
            Ok(()) => {
                let ghost before = work.collaborators.deep_view();
                let mut added = collaborators;
                work.collaborators.append(&mut added);
                assert(work.collaborators.deep_view() =~= before + new_ids);
            },
            Err(e) => {
                if e != GovernanceError::ConsensusRejected {
                    return Err(e);
                }
            },
        }
        work.votes = None;
        proof {
            lemma_with_work_at_wf(self@, i as int, j as int, work@);
        }
        self.replace_work(i, j, work);
        outcome
    }

    /// Files the caller's infringement report against work `work_id`,
    /// overwriting an earlier report of theirs.
    /// Fails with `NotFound` when there is no such work.
    pub fn report_infringement(&mut self, caller: &AccountId, now: u64, work_id: &WorkId, reason: String) -> (r: Result<(), GovernanceError>)
        requires
            old(self).wf(),
        ensures
            final(self).wf(),
            match stored_work(old(self)@, work_id@) {
                None => r == Err::<(), GovernanceError>(GovernanceError::NotFound) && final(self)@ == old(self)@,
                Some(w) => r is Ok && final(self)@ == with_stored_work(old(self)@, work_id@, work_reported(w, caller@, reason@, now)),
            },
    {
        let (i, j) = match self.locate_work(work_id) {
            Some(p) => p,
            None => return Err(GovernanceError::NotFound),
        };
        let mut work = self.works[i].works[j].duplicate();
        record_report(&mut work, caller, reason, now);
        proof {
            lemma_with_work_at_wf(self@, i as int, j as int, work@);
        }
        self.replace_work(i, j, work);
        Ok(())
    }

    /// The transfers that split `total_amount` by `ratios`, or, when none
    /// are given, equally among the author and collaborators of work `work_id`.
    /// The equal split gives each participant `100 / participants` percent,
    /// rounded down, and what the rounding leaves is not paid out.
    /// Fails with `NotFound` when the equal split is asked for a work that
    /// does not exist, and with `ValidationFailed` when given ratios do not
    /// sum to 100.
    pub fn distribute_funds(&self, total_amount: u128, work_id: &WorkId, ratios: Option<Vec<(AccountId, u32)>>) -> (r: Result<Vec<(AccountId, u128)>, GovernanceError>)
        ensures
            match ratios.deep_view() {
                Some(rs) => if valid_ratios(rs) {
                    r matches Ok(p) && p.deep_view() == payouts_of(total_amount, rs)
                } else {
                    r == Err::<Vec<(AccountId, u128)>, GovernanceError>(GovernanceError::ValidationFailed)
                },
                None => match stored_work(self@, work_id@) {
                    None => r == Err::<Vec<(AccountId, u128)>, GovernanceError>(GovernanceError::NotFound),
                    Some(w) => r matches Ok(p) && p.deep_view() == payouts_of(total_amount, equal_split_of(w.author.id, w.collaborators)),
                },
            },
    {
        match ratios {
            Some(rs) => split_payment(total_amount, &rs),
            None => {
                let (i, j) = match self.locate_work(work_id) {
                    Some(p) => p,
                    None => return Err(GovernanceError::NotFound),
                };
                let work = &self.works[i].works[j];
                let split = equal_split(&work.author.id, &work.collaborators);
                proof {
                    lemma_equal_split_bounded(work@.author.id, work@.collaborators);
                }
                Ok(pay_out(total_amount, &split))
            },
        }
    }

    /// Grants the caller paid access to work `work_id` for an attached
    /// payment of exactly its fee, and returns the transfers that pass the
    /// fee on to its owners; returns `None` for the author and the
    /// collaborators, who have access already.
    /// The fee is split by the work's ratios, or else equally, as
    /// `distribute_funds` does.
    /// Fails with `NotFound` when there is no such work, and with
    /// `ValidationFailed` when the payment does not match the fee.
    pub fn get_access(&mut self, caller: &AccountId, attached: u128, work_id: &WorkId) -> (r: Result<Option<Vec<(AccountId, u128)>>, GovernanceError>)
        requires
            old(self).wf(),
        ensures
            final(self).wf(),
            match stored_work(old(self)@, work_id@) {
                None => r == Err::<Option<Vec<(AccountId, u128)>>, GovernanceError>(GovernanceError::NotFound) && final(self)@ == old(self)@,
                Some(w) => if is_member(w, caller@) {
                    r == Ok::<Option<Vec<(AccountId, u128)>>, GovernanceError>(None) && final(self)@ == old(self)@
                } else if attached != w.fee {
                    r == Err::<Option<Vec<(AccountId, u128)>>, GovernanceError>(GovernanceError::ValidationFailed) && final(self)@ == old(self)@
                } else {
                    r matches Ok(Some(p)) && p.deep_view() == payouts_of(w.fee, payout_ratios(w))
                        && final(self)@ == with_stored_work(old(self)@, work_id@, WorkView {
                            authorized_users: w.authorized_users.push(caller@),
                            ..w
                        })
                },
            },
    {
        let (i, j) = match self.locate_work(work_id) {
            Some(p) => p,
            None => return Err(GovernanceError::NotFound),
        };
        let mut work = self.works[i].works[j].duplicate();
        if work.author.id == *caller || contains_key(&work.collaborators, caller) {
            return Ok(None);
        }
        if attached != work.fee {
            return Err(GovernanceError::ValidationFailed);
        }
        let split = payout_ratios_of(&work);
        proof {
            lemma_equal_split_bounded(work@.author.id, work@.collaborators);
            assert(valid_opt_ratios(self@.lists[i as int].works[j as int].ratios));
            if let Some(rs) = work@.ratios {
                lemma_valid_ratios_bounded(rs);
            }
        }
        let transfers = pay_out(work.fee, &split);
        let ghost users = work.authorized_users.deep_view();
        work.authorized_users.push(caller.clone());
        assert(work.authorized_users.deep_view() =~= users.push(caller@));
        proof {
            lemma_with_work_at_wf(self@, i as int, j as int, work@);
        }
        self.replace_work(i, j, work);
        Ok(Some(transfers))
    }

    /// Casts the caller's ballot on work `work_id` at time `now`, opening a
    /// round when none is open; `attached` must be the vote fee.
    /// The author and every collaborator may vote: all of them count toward
    /// the size of the group, and so toward the quorum.
    /// Fails with `NotFound` when there is no such work, with `Unauthorized`
    /// when the caller is neither its author nor a collaborator, with
    /// `AlreadyVoted` when the caller voted in the open round, and with
    /// `ValidationFailed` when the payment is not the vote fee.
    pub fn vote(&mut self, caller: &AccountId, attached: u128, now: u64, work_id: &WorkId, decision: bool) -> (r: Result<(), GovernanceError>)
        requires
            old(self).wf(),
        ensures
            final(self).wf(),
            match stored_work(old(self)@, work_id@) {
                None => r == Err::<(), GovernanceError>(GovernanceError::NotFound) && final(self)@ == old(self)@,
                Some(w) => if !is_member(w, caller@) {
                    r == Err::<(), GovernanceError>(GovernanceError::Unauthorized) && final(self)@ == old(self)@
                } else if has_key::<Vote>(ballots(w), caller@) {
                    r == Err::<(), GovernanceError>(GovernanceError::AlreadyVoted) && final(self)@ == old(self)@
                } else if attached != VOTE_FEE {
                    r == Err::<(), GovernanceError>(GovernanceError::ValidationFailed) && final(self)@ == old(self)@
                } else {
                    r is Ok && final(self)@ == with_stored_work(old(self)@, work_id@, with_vote(w, caller@, decision, now))
                },
            },
    {
        let (i, j) = match self.locate_work(work_id) {
            Some(p) => p,
            None => return Err(GovernanceError::NotFound),
        };
        let mut work = self.works[i].works[j].duplicate();
        if !(work.author.id == *caller || contains_key(&work.collaborators, caller)) {
            return Err(GovernanceError::Unauthorized);
        }
        if let Some(votes) = &work.votes {
            if contains_key(votes, caller) {
                return Err(GovernanceError::AlreadyVoted);
            }
        }
        assert(has_key::<Vote>(ballots(work@), caller@) == (work.votes is Some && has_key::<Vote>(work@.votes.unwrap(), caller@)));
        if attached != VOTE_FEE {
            return Err(GovernanceError::ValidationFailed);
        }
        let _ = cast_vote(&mut work, caller, decision, now);
        proof {
            lemma_with_work_at_wf(self@, i as int, j as int, work@);
        }
        self.replace_work(i, j, work);
        Ok(())
    }
}

} // verus!
