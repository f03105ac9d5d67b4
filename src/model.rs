use vstd::prelude::*;

verus! {

/// An account handle, as the host's identity system names it.
pub type AccountId = String;

/// The identifier of a work: an acronym of its title followed by a timestamp.
pub type WorkId = String;

/// The sum of the numbers of a list of (account, number) pairs.
pub open spec fn value_total(s: Seq<(Seq<char>, u32)>) -> int
    decreases s.len(),
{
    if s.len() == 0 {
        0
    } else {
        value_total(s.drop_last()) + s.last().1
    }
}

/// A value that can be copied exactly, down to what its deep view shows.
pub trait Duplicate: Sized + DeepView {
    fn duplicate(&self) -> (r: Self)
        ensures
            r.deep_view() == self.deep_view(),
    ;
}

impl Duplicate for String {
    fn duplicate(&self) -> (r: String) {
        self.clone()
    }
}

impl Duplicate for (String, u32) {
    fn duplicate(&self) -> (r: (String, u32)) {
        (self.0.clone(), self.1)
    }
}

/// Copies every element of `v`, in order.
pub fn duplicate_vec<T: Duplicate>(v: &Vec<T>) -> (r: Vec<T>)
    ensures
        r.deep_view() == v.deep_view(),
{
    let mut r: Vec<T> = Vec::new();
    let mut i: usize = 0;
    while i < v.len()
        invariant
            i <= v@.len(),
            r@.len() == i,
            forall|j: int| 0 <= j < i ==> (#[trigger] r@[j]).deep_view() == v@[j].deep_view(),
        decreases v@.len() - i,
    {
        r.push(v[i].duplicate());
        i += 1;
    }
    assert(r.deep_view() =~= v.deep_view());
    r
}

/// Copies an optional list, keeping `None` as it is.
pub fn duplicate_opt_vec<T: Duplicate>(v: &Option<Vec<T>>) -> (r: Option<Vec<T>>)
    ensures
        r.deep_view() == v.deep_view(),
{
    match v {
        Some(items) => Some(duplicate_vec(items)),
        None => None,
    }
}

/// An element identified by an account or work id.
pub trait Keyed: DeepView {
    spec fn key_of(v: Self::V) -> Seq<char>;

    fn key(&self) -> (r: &String)
        ensures
            r@ == Self::key_of(self.deep_view()),
    ;
}

/// `i` is the first position of `s` whose key is `k`.
pub open spec fn is_first_key<T: Keyed>(s: Seq<T::V>, k: Seq<char>, i: int) -> bool {
    &&& 0 <= i < s.len()
    &&& T::key_of(s[i]) == k
    &&& forall|j: int| 0 <= j < i ==> T::key_of(#[trigger] s[j]) != k
}

/// The first position of `s` whose key is `k`, if any.
pub open spec fn index_of_key<T: Keyed>(s: Seq<T::V>, k: Seq<char>) -> Option<int> {
    if exists|i: int| is_first_key::<T>(s, k, i) {
        Some(choose|i: int| is_first_key::<T>(s, k, i))
    } else {
        None
    }
}

/// Some element of `s` has key `k`.
pub open spec fn has_key<T: Keyed>(s: Seq<T::V>, k: Seq<char>) -> bool {
    exists|i: int| 0 <= i < s.len() && T::key_of(#[trigger] s[i]) == k
}

proof fn lemma_first_key_exists<T: Keyed>(s: Seq<T::V>, k: Seq<char>, w: int)
    requires
        0 <= w < s.len(),
        T::key_of(s[w]) == k,
    ensures
        exists|i: int| is_first_key::<T>(s, k, i),
    decreases w,
{
    if exists|j: int| 0 <= j < w && T::key_of(#[trigger] s[j]) == k {
        let j = choose|j: int| 0 <= j < w && T::key_of(#[trigger] s[j]) == k;
        lemma_first_key_exists::<T>(s, k, j);
    } else {
        assert(is_first_key::<T>(s, k, w));
    }
}

/// What `index_of_key` gives: the first match, or no match at all.
pub proof fn lemma_index_of_key<T: Keyed>(s: Seq<T::V>, k: Seq<char>)
    ensures
        match index_of_key::<T>(s, k) {
            Some(i) => is_first_key::<T>(s, k, i) && has_key::<T>(s, k),
            None => !has_key::<T>(s, k),
        },
{
    if has_key::<T>(s, k) {
        let w = choose|i: int| 0 <= i < s.len() && T::key_of(#[trigger] s[i]) == k;
        lemma_first_key_exists::<T>(s, k, w);
        let c = choose|i: int| is_first_key::<T>(s, k, i);
        assert(0 <= c < s.len());
    }
}

/// The first position whose key is `k` is what `index_of_key` gives.
pub proof fn lemma_first_key_is_index<T: Keyed>(s: Seq<T::V>, k: Seq<char>, i: int)
    requires
        is_first_key::<T>(s, k, i),
    ensures
        index_of_key::<T>(s, k) == Some(i),
{
    let c = choose|c: int| is_first_key::<T>(s, k, c);
    assert(is_first_key::<T>(s, k, c));
    assert(c == i) by {
        if c < i {
            assert(T::key_of(s[c]) != k);
        } else if c > i {
            assert(T::key_of(s[i]) != k);
        }
    }
}

/// No two elements of `s` share a key.
pub open spec fn keys_unique<T: Keyed>(s: Seq<T::V>) -> bool {
    forall|a: int, b: int|
        #![trigger s[a], s[b]]
        0 <= a < b < s.len() ==> T::key_of(s[a]) != T::key_of(s[b])
}

/// The position of the first element of `v` whose key is `k`.
pub fn find_key<T: Keyed>(v: &Vec<T>, k: &String) -> (r: Option<usize>)
    ensures
        match r {
            Some(i) => index_of_key::<T>(v.deep_view(), k@) == Some(i as int),
            None => index_of_key::<T>(v.deep_view(), k@) is None,
        },
{
    let ghost s = v.deep_view();
    let mut i: usize = 0;
    while i < v.len()
        invariant
            s == v.deep_view(),
            i <= s.len(),
            forall|j: int| 0 <= j < i ==> T::key_of(#[trigger] s[j]) != k@,
        decreases s.len() - i,
    {
        assert(s[i as int] == v@[i as int].deep_view());
        if *v[i].key() == *k {
            proof {
                assert(is_first_key::<T>(s, k@, i as int));
                lemma_first_key_is_index::<T>(s, k@, i as int);
            }
            return Some(i);
        }
        i += 1;
    }
    proof {
        lemma_index_of_key::<T>(s, k@);
    }
    None
}

/// Tells whether some element of `v` has key `k`.
pub fn contains_key<T: Keyed>(v: &Vec<T>, k: &String) -> (r: bool)
    ensures
        r == has_key::<T>(v.deep_view(), k@),
{
    let found = find_key(v, k);
    proof {
        lemma_index_of_key::<T>(v.deep_view(), k@);
    }
    found.is_some()
}

/// Tells whether no two elements of `v` share a key.
pub fn keys_are_unique<T: Keyed>(v: &Vec<T>) -> (r: bool)
    ensures
        r == keys_unique::<T>(v.deep_view()),
{
    let ghost s = v.deep_view();
    let mut i: usize = 0;
    while i < v.len()
        invariant
            s == v.deep_view(),
            i <= s.len(),
            forall|a: int, b: int|
                #![trigger s[a], s[b]]
                0 <= a < b < i ==> T::key_of(s[a]) != T::key_of(s[b]),
        decreases s.len() - i,
    {
        assert(s[i as int] == v@[i as int].deep_view());
        let found = find_key(v, v[i].key());
        proof {
            lemma_index_of_key::<T>(s, T::key_of(s[i as int]));
        }
        match found {
            Some(j) => {
                if j != i {
                    assert(is_first_key::<T>(s, T::key_of(s[i as int]), j as int));
                    assert(j < i);
                    return false;
                }
                assert(is_first_key::<T>(s, T::key_of(s[i as int]), i as int));
            },
            None => {
                assert(false);
            },
        }
        i += 1;
    }
    true
}

impl Keyed for String {
    open spec fn key_of(v: Seq<char>) -> Seq<char> {
        v
    }

    fn key(&self) -> (r: &String) {
        self
    }
}

impl Keyed for (String, u32) {
    open spec fn key_of(v: (Seq<char>, u32)) -> Seq<char> {
        v.0
    }

    fn key(&self) -> (r: &String) {
        &self.0
    }
}

/// A registered author.
#[derive(Clone, Debug, PartialEq, Eq)]
pub struct Author {
    pub id: AccountId,
    pub name: String,
    pub age: u32,
    /// Every (work, rating) this author has cast, in the order cast.
    pub rated_works: Vec<(WorkId, u32)>,
}

pub ghost struct AuthorView {
    pub id: Seq<char>,
    pub name: Seq<char>,
    pub age: u32,
    pub rated_works: Seq<(Seq<char>, u32)>,
}

impl View for Author {
    type V = AuthorView;

    open spec fn view(&self) -> AuthorView {
        AuthorView {
            id: self.id@,
            name: self.name@,
            age: self.age,
            rated_works: self.rated_works.deep_view(),
        }
    }
}

impl DeepView for Author {
    type V = AuthorView;

    open spec fn deep_view(&self) -> AuthorView {
        self@
    }
}

impl Keyed for Author {
    open spec fn key_of(v: AuthorView) -> Seq<char> {
        v.id
    }

    fn key(&self) -> (r: &String) {
        &self.id
    }
}

impl Duplicate for Author {
    fn duplicate(&self) -> (r: Author) {
        Author {
            id: self.id.clone(),
            name: self.name.clone(),
            age: self.age,
            rated_works: duplicate_vec(&self.rated_works),
        }
    }
}

/// A claim that a work infringes, one per reporter.
#[derive(Clone, Debug, PartialEq, Eq)]
pub struct Report {
    pub reporter: AccountId,
    pub reason: String,
    pub timestamp: u64,
}

pub ghost struct ReportView {
    pub reporter: Seq<char>,
    pub reason: Seq<char>,
    pub timestamp: u64,
}

impl View for Report {
    type V = ReportView;

    open spec fn view(&self) -> ReportView {
        ReportView { reporter: self.reporter@, reason: self.reason@, timestamp: self.timestamp }
    }
}

impl DeepView for Report {
    type V = ReportView;

    open spec fn deep_view(&self) -> ReportView {
        self@
    }
}

impl Keyed for Report {
    open spec fn key_of(v: ReportView) -> Seq<char> {
        v.reporter
    }

    fn key(&self) -> (r: &String) {
        &self.reporter
    }
}

impl Duplicate for Report {
    fn duplicate(&self) -> (r: Report) {
        Report { reporter: self.reporter.clone(), reason: self.reason.clone(), timestamp: self.timestamp }
    }
}

/// One ballot of the open governance round.
#[derive(Clone, Debug, PartialEq, Eq)]
pub struct Vote {
    pub voter: AccountId,
    pub decision: bool,
    pub timestamp: u64,
}

pub ghost struct VoteView {
    pub voter: Seq<char>,
    pub decision: bool,
    pub timestamp: u64,
}

impl View for Vote {
    type V = VoteView;

    open spec fn view(&self) -> VoteView {
        VoteView { voter: self.voter@, decision: self.decision, timestamp: self.timestamp }
    }
}

impl DeepView for Vote {
    type V = VoteView;

    open spec fn deep_view(&self) -> VoteView {
        self@
    }
}

impl Keyed for Vote {
    open spec fn key_of(v: VoteView) -> Seq<char> {
        v.voter
    }

    fn key(&self) -> (r: &String) {
        &self.voter
    }
}

impl Duplicate for Vote {
    fn duplicate(&self) -> (r: Vote) {
        Vote { voter: self.voter.clone(), decision: self.decision, timestamp: self.timestamp }
    }
}

/// The mean of a work's ratings, kept exactly as `total / count`.
#[derive(Clone, Copy, Debug, PartialEq, Eq, Structural)]
pub struct AverageRating {
    pub total: u128,
    pub count: u64,
}

impl DeepView for AverageRating {
    type V = AverageRating;

    open spec fn deep_view(&self) -> AverageRating {
        *self
    }
}

/// A creative work, its owner's snapshot and its governance state.
#[derive(Clone, Debug, PartialEq, Eq)]
pub struct Work {
    pub id: WorkId,
    pub name: String,
    pub content: String,
    /// The author record as it stood when the work was created.
    pub author: Author,
    pub fee: u128,
    pub ratings: Vec<(AccountId, u32)>,
    pub average_rating: Option<AverageRating>,
    pub published_date: u64,
    pub updated_date: u64,
    pub collaborators: Vec<AccountId>,
    pub reported_infringements: Option<Vec<Report>>,
    pub ratios: Option<Vec<(AccountId, u32)>>,
    pub authorized_users: Vec<AccountId>,
    /// The ballots of the open round; `None` when no round is open.
    pub votes: Option<Vec<Vote>>,
}

pub ghost struct WorkView {
    pub id: Seq<char>,
    pub name: Seq<char>,
    pub content: Seq<char>,
    pub author: AuthorView,
    pub fee: u128,
    pub ratings: Seq<(Seq<char>, u32)>,
    pub average_rating: Option<AverageRating>,
    pub published_date: u64,
    pub updated_date: u64,
    pub collaborators: Seq<Seq<char>>,
    pub reported_infringements: Option<Seq<ReportView>>,
    pub ratios: Option<Seq<(Seq<char>, u32)>>,
    pub authorized_users: Seq<Seq<char>>,
    pub votes: Option<Seq<VoteView>>,
}

impl View for Work {
    type V = WorkView;

    open spec fn view(&self) -> WorkView {
        WorkView {
            id: self.id@,
            name: self.name@,
            content: self.content@,
            author: self.author@,
            fee: self.fee,
            ratings: self.ratings.deep_view(),
            average_rating: self.average_rating,
            published_date: self.published_date,
            updated_date: self.updated_date,
            collaborators: self.collaborators.deep_view(),
            reported_infringements: self.reported_infringements.deep_view(),
            ratios: self.ratios.deep_view(),
            authorized_users: self.authorized_users.deep_view(),
            votes: self.votes.deep_view(),
        }
    }
}

impl DeepView for Work {
    type V = WorkView;

    open spec fn deep_view(&self) -> WorkView {
        self@
    }
}

impl Duplicate for Work {
    fn duplicate(&self) -> (r: Work) {
        Work {
            id: self.id.clone(),
            name: self.name.clone(),
            content: self.content.clone(),
            author: self.author.duplicate(),
            fee: self.fee,
            ratings: duplicate_vec(&self.ratings),
            average_rating: self.average_rating,
            published_date: self.published_date,
            updated_date: self.updated_date,
            collaborators: duplicate_vec(&self.collaborators),
            reported_infringements: duplicate_opt_vec(&self.reported_infringements),
            ratios: duplicate_opt_vec(&self.ratios),
            authorized_users: duplicate_vec(&self.authorized_users),
            votes: duplicate_opt_vec(&self.votes),
        }
    }
}

/// Why a governance call failed.
#[derive(Clone, Copy, Debug, PartialEq, Eq, Structural)]
pub enum GovernanceError {
    /// No author or work has the given id.
    NotFound,
    /// The caller may not perform this action.
    Unauthorized,
    /// An input is invalid: ratios not summing to 100, a rating over 5,
    /// a payment that does not match, a collaborator already present.
    ValidationFailed,
    /// Not enough votes have been cast, or the caller has not voted.
    QuorumNotMet,
    /// Quorum was met but agreeing votes did not outnumber the others.
    ConsensusRejected,
    /// The caller already voted in the open round.
    AlreadyVoted,
}

} // verus!
