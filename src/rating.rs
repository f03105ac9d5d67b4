use vstd::prelude::*;
use crate::model::{has_key, index_of_key, lemma_index_of_key, find_key, value_total, AccountId, AverageRating, GovernanceError, Work, WorkView};

verus! {

/// The ratings after `voter` rates `rating`: an existing entry is replaced,
/// or removed when `rating` is 0; otherwise a non-zero rating is appended
/// and a zero one changes nothing.
pub open spec fn rated(s: Seq<(Seq<char>, u32)>, voter: Seq<char>, rating: u32) -> Seq<(Seq<char>, u32)> {
    match index_of_key::<(String, u32)>(s, voter) {
        Some(i) => if rating > 0 {
            s.update(i, (voter, rating))
        } else {
            s.remove(i)
        },
        None => if rating > 0 {
            s.push((voter, rating))
        } else {
            s
        },
    }
}

/// The mean of the ratings, or `None` when there are none.
pub open spec fn mean_of(s: Seq<(Seq<char>, u32)>) -> Option<AverageRating> {
    if s.len() == 0 {
        None
    } else {
        Some(AverageRating { total: value_total(s) as u128, count: s.len() as u64 })
    }
}

/// The work after `voter` rates it `rating`: its ratings updated and their mean recomputed.
pub open spec fn work_rated(w: WorkView, voter: Seq<char>, rating: u32) -> WorkView {
    let ratings = rated(w.ratings, voter, rating);
    WorkView { ratings, average_rating: mean_of(ratings), ..w }
}

/// After any rating, the cached average is the mean of the ratings that
/// remain, and it is absent exactly when none remain.
pub proof fn lemma_average_tracks_ratings(w: WorkView, voter: Seq<char>, rating: u32)
    ensures
        work_rated(w, voter, rating).average_rating == mean_of(work_rated(w, voter, rating).ratings),
        work_rated(w, voter, rating).average_rating is None <==> work_rated(w, voter, rating).ratings.len() == 0,
{
}

/// A rating of 0 from a voter with no rating on the work changes nothing.
pub proof fn lemma_zero_rating_without_prior(w: WorkView, voter: Seq<char>)
    requires
        !has_key::<(String, u32)>(w.ratings, voter),
        w.average_rating == mean_of(w.ratings),
    ensures
        work_rated(w, voter, 0) == w,
{
    lemma_index_of_key::<(String, u32)>(w.ratings, voter);
}

/// Every stored rating lies in 1 to 5.
pub open spec fn ratings_in_range(s: Seq<(Seq<char>, u32)>) -> bool {
    forall|i: int| 0 <= i < s.len() ==> 1 <= (#[trigger] s[i]).1 <= 5
}

/// Records `rating` by `voter` in `ratings`.
pub fn apply_rating(ratings: &mut Vec<(AccountId, u32)>, voter: &AccountId, rating: u32)
    requires
        rating <= 5,
    ensures
        final(ratings).deep_view() == rated(old(ratings).deep_view(), voter@, rating),
        ratings_in_range(old(ratings).deep_view()) ==> ratings_in_range(final(ratings).deep_view()),
{
    let ghost s = ratings.deep_view();
    match find_key(ratings, voter) {
        Some(i) => {
            if rating > 0 {
                ratings.set(i, (voter.clone(), rating));
                assert(ratings.deep_view() =~= s.update(i as int, (voter@, rating)));
            } else {
                ratings.remove(i);
                assert(ratings.deep_view() =~= s.remove(i as int));
            }
        },
        None => {
            if rating > 0 {
                ratings.push((voter.clone(), rating));
                assert(ratings.deep_view() =~= s.push((voter@, rating)));
            }
        },
    }
    proof {
        let t = ratings.deep_view();
        if ratings_in_range(s) {
            assert forall|k: int| 0 <= k < t.len() implies 1 <= (#[trigger] t[k]).1 <= 5 by {
                match index_of_key::<(String, u32)>(s, voter@) {
                    Some(j) => if rating == 0 && k >= j {
                        assert(t[k] == s[k + 1]);
                    },
                    None => {},
                }
            }
        }
    }
}

impl Work {
    /// The mean of the work's current ratings, or `None` when it has none.
    pub fn calculate_avg_ratings(&self) -> (r: Option<AverageRating>)
        ensures
            r == mean_of(self.ratings.deep_view()),
    {
        let ghost s = self.ratings.deep_view();
        let n = self.ratings.len();
        if n == 0 {
            return None;
        }
        let mut total: u128 = 0;
        let mut i: usize = 0;
        while i < n
            invariant
                s == self.ratings.deep_view(),
                n == s.len(),
                i <= n,
                total == value_total(s.take(i as int)),
                total <= i * 0xffff_ffffu128,
            decreases n - i,
        {
            let x = self.ratings[i].1;
            assert(s.take(i + 1).drop_last() =~= s.take(i as int));
            assert(s[i as int].1 == x);
            assert(total + x <= (i + 1) * 0xffff_ffffu128) by (nonlinear_arith)
                requires
                    total <= i * 0xffff_ffffu128,
                    x <= 0xffff_ffffu128,
            ;
            assert((i + 1) * 0xffff_ffffu128 <= 0xffff_ffff_ffff_ffffu128 * 0xffff_ffffu128)
                by (nonlinear_arith)
                requires
                    i + 1 <= 0xffff_ffff_ffff_ffffu128,
            ;
            total = total + x as u128;
            i += 1;
        }
        assert(s.take(n as int) =~= s);
        Some(AverageRating { total, count: n as u64 })
    }

    /// Records `voter`'s rating and recomputes the average.
    /// Fails with `ValidationFailed`, changing nothing, when `rating` is over 5.
    pub fn rate(&mut self, voter: &AccountId, rating: u32) -> (r: Result<(), GovernanceError>)
        ensures
            rating > 5 ==> r == Err::<(), GovernanceError>(GovernanceError::ValidationFailed) && final(self)@ == old(self)@,
            rating <= 5 ==> r is Ok && final(self)@ == work_rated(old(self)@, voter@, rating),
            rating <= 5 ==> (final(self).average_rating is None <==> final(self).ratings@.len() == 0),
            ratings_in_range(old(self).ratings.deep_view()) ==> ratings_in_range(final(self).ratings.deep_view()),
    {
        if rating > 5 {
            return Err(GovernanceError::ValidationFailed);
        }
        apply_rating(&mut self.ratings, voter, rating);
        self.average_rating = self.calculate_avg_ratings();
        Ok(())
    }
}

} // verus!
