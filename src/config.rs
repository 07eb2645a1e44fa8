use vstd::prelude::*;

use crate::ledger::{
    distinct, distinct_prefix, draw_uuids, extend_lock, kept_len, MAX_DRAWS, reconcile_error, reconciled, removed_uuids, uuids_of,
    ConfigError, QuizLock,
};

verus! {

/// A link shown with an entry.
pub struct QuizLink {
    pub name: String,
    pub url: String,
}

/// The value of the `powered-by` switch when the configuration leaves it out.
pub fn bool_default_true() -> (r: bool)
    ensures
        r,
{
    true
}

/// A loaded configuration: the footer switch, the entries in file order, and
/// the ledger of their tokens, position by position.
pub struct Config<Q> {
    pub powered_by: bool,
    pub quiz: Vec<Q>,
    pub lock: Vec<QuizLock>,
}

/// The prior ledger as a sequence; an absent one is empty.
pub open spec fn prior_of(lock: Option<Vec<QuizLock>>) -> Seq<QuizLock> {
    match lock {
        Some(l) => l@,
        None => Seq::empty(),
    }
}

impl<Q> Config<Q> {
    /// The ledger matches the entries: one record each, at least one, and no
    /// token twice.
    pub open spec fn wf(&self) -> bool {
        &&& self.quiz.len() > 0
        &&& self.lock.len() == self.quiz.len()
        &&& distinct(uuids_of(self.lock@))
    }

    /// Builds a configuration from loaded entries and the ledger read from
    /// disk (`None` when there was none), reconciling the two. Returns the
    /// configuration and the tokens that are no longer served.
    pub fn new(powered_by: bool, quiz: Vec<Q>, lock: Option<Vec<QuizLock>>) -> (r: Result<
        (Config<Q>, Vec<u128>),
        ConfigError,
    >)
        ensures
            match r {
                Ok((c, removed)) => {
                    &&& reconcile_error(quiz.len() as nat, prior_of(lock)) is None
                    &&& reconciled(quiz.len() as nat, prior_of(lock), c.lock@, removed@)
                    &&& c.quiz@ == quiz@
                    &&& c.powered_by == powered_by
                    &&& c.wf()
                },
                Err(e) => reconcile_error(quiz.len() as nat, prior_of(lock)) == Some(e) || (e
                    == ConfigError::UuidExhausted && reconcile_error(
                    quiz.len() as nat,
                    prior_of(lock),
                ) is None && quiz.len() > prior_of(lock).len()),
            },
            quiz.len() == 0 ==> r == Err::<(Config<Q>, Vec<u128>), ConfigError>(
                ConfigError::NoQuiz,
            ),
            reconcile_error(quiz.len() as nat, prior_of(lock)) is None && quiz.len() <= prior_of(
                lock,
            ).len() ==> r is Ok,
    {
        let lock = match lock {
            Some(l) => l,
            None => Vec::new(),
        };
        let mut config = Config { powered_by, quiz, lock };
        match config.validate() {
            Ok(removed) => Ok((config, removed)),
            Err(e) => Err(e),
        }
    }

    /// Aligns the ledger with the entries: keeps its records position by
    /// position, cuts those past the last entry from the end one at a time
    /// (returning their tokens in that order), and appends a fresh token for
    /// each entry past its end.
    pub fn validate(&mut self) -> (r: Result<Vec<u128>, ConfigError>)
        ensures
            old(self).quiz.len() == 0 ==> r == Err::<Vec<u128>, ConfigError>(ConfigError::NoQuiz),
            final(self).quiz == old(self).quiz,
            final(self).powered_by == old(self).powered_by,
            match r {
                Ok(removed) => {
                    &&& reconcile_error(old(self).quiz.len() as nat, old(self).lock@) is None
                    &&& reconciled(
                        old(self).quiz.len() as nat,
                        old(self).lock@,
                        final(self).lock@,
                        removed@,
                    )
                },
                Err(e) => reconcile_error(old(self).quiz.len() as nat, old(self).lock@) == Some(e)
                    || (e == ConfigError::UuidExhausted && reconcile_error(
                    old(self).quiz.len() as nat,
                    old(self).lock@,
                ) is None && old(self).quiz.len() > old(self).lock.len()),
            },
            reconcile_error(old(self).quiz.len() as nat, old(self).lock@) is None
                && old(self).quiz.len() <= old(self).lock.len() ==> r is Ok,
    {
        let n = self.quiz.len();
        if n == 0 {
            return Err(ConfigError::NoQuiz);
        }
        let m = self.lock.len();
        let k = if n <= m {
            n
        } else {
            m
        };
        if !distinct_prefix(&self.lock, k) {
            return Err(ConfigError::DuplicateUuid);
        }
        let ghost prior = self.lock@;
        let mut removed: Vec<u128> = Vec::new();
        if n < m {
            let mut i: usize = m;
            while i > n
                invariant
                    n <= i <= m,
                    m == self.lock.len(),
                    self.lock@ == prior,
                    self.quiz == old(self).quiz,
                    self.powered_by == old(self).powered_by,
                    prior == old(self).lock@,
                    removed@ == Seq::new((m - i) as nat, |j: int| prior[m - 1 - j].uuid),
                decreases i,
            {
                i -= 1;
                removed.push(self.lock[i].uuid);
                assert(removed@ =~= Seq::new((m - i) as nat, |j: int| prior[m - 1 - j].uuid));
            }
            self.lock.truncate(n);
        }
        assert(self.lock@ == prior.take(k as int));
        assert(uuids_of(self.lock@) =~= uuids_of(prior).take(k as int));
        let mut rounds: usize = 0;
        while self.lock.len() < n && rounds < MAX_DRAWS
            invariant
                n == self.quiz.len(),
                self.quiz == old(self).quiz,
                self.powered_by == old(self).powered_by,
                k <= self.lock.len() <= n,
                prior == old(self).lock@,
                m == prior.len(),
                k == kept_len(n as nat, m as nat),
                n <= m ==> self.lock.len() == n,
                reconcile_error(n as nat, prior) is None,
                self.lock@.take(k as int) == prior.take(k as int),
                distinct(uuids_of(self.lock@)),
            decreases MAX_DRAWS - rounds,
        {
            let cands = draw_uuids(n - self.lock.len());
            let ghost before = self.lock@;
            extend_lock(&mut self.lock, n, &cands);
            assert(self.lock@.take(k as int) =~= self.lock@.take(before.len() as int).take(
                k as int,
            ));
            rounds += 1;
        }
        if self.lock.len() < n {
            return Err(ConfigError::UuidExhausted);
        }
        assert(removed@ =~= removed_uuids(n as nat, prior));
        Ok(removed)
    }
}

} // verus!
