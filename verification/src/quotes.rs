use vstd::prelude::*;
use crate::errors::StoreError;
use crate::ids::{dec_chars, lemma_dec_chars_injective, u64_to_dec};

verus! {

/// One immutable quote record: an identifier the store assigned at
/// creation, the quoted text, and who said it.
#[derive(Debug)]
pub struct Quote {
    pub id: String,
    pub text: String,
    pub speaker: String,
}

impl Clone for Quote {
    fn clone(&self) -> (r: Self)
        ensures
            r == *self,
    {
        Quote { id: self.id.clone(), text: self.text.clone(), speaker: self.speaker.clone() }
    }
}

/// The ordered collection of quotes. It only grows: records are
/// appended by `add` and never changed or removed, and each record's
/// identifier is the decimal rendering of its position, so identifiers
/// are unique for the life of the store.
pub struct QuoteStore {
    quotes: Vec<Quote>,
}

impl View for QuoteStore {
    type V = Seq<Quote>;

    closed spec fn view(&self) -> Seq<Quote> {
        self.quotes@
    }
}

/// Relies on rand's `Rng::random_range` over `0..n`: it returns a value
/// of the (non-empty) range, uniformly distributed.
#[verifier::external_body]
fn random_below(n: usize) -> (r: usize)
    requires
        1 <= n,
    ensures
        r < n,
{
    rand::Rng::random_range(&mut rand::rng(), 0..n)
}

impl QuoteStore {
    /// Each record's identifier is the decimal rendering of its index.
    pub closed spec fn wf(&self) -> bool {
        forall|i: int| 0 <= i < self.quotes@.len() ==> self.quotes@[i].id@ == dec_chars(i as nat)
    }

    pub fn new() -> (s: QuoteStore)
        ensures
            s.wf(),
            s@ =~= Seq::<Quote>::empty(),
    {
        QuoteStore { quotes: Vec::new() }
    }

    /// A well-formed store never holds two records with one identifier.
    pub proof fn lemma_id_determines_index(&self, i: int, j: int)
        requires
            self.wf(),
            0 <= i < self@.len(),
            0 <= j < self@.len(),
            self@[i].id@ == self@[j].id@,
        ensures
            i == j,
    {
        lemma_dec_chars_injective(i as nat, j as nat);
    }

    /// Identifiers handed out by `add` are pairwise distinct.
    pub proof fn lemma_ids_distinct(&self)
        requires
            self.wf(),
        ensures
            forall|i: int, j: int|
                0 <= i < self@.len() && 0 <= j < self@.len() && i != j ==> self@[i].id@
                    != self@[j].id@,
    {
        assert forall|i: int, j: int|
            0 <= i < self@.len() && 0 <= j < self@.len() && i != j implies self@[i].id@
            != self@[j].id@ by {
            if self@[i].id@ == self@[j].id@ {
                self.lemma_id_determines_index(i, j);
            }
        }
    }

    /// Appends a new record built from `text` and `speaker` under a
    /// fresh identifier, and returns a copy of that record.
    pub fn add(&mut self, text: String, speaker: String) -> (q: Quote)
        requires
            old(self).wf(),
        ensures
            final(self).wf(),
            final(self)@ =~= old(self)@.push(q),
            q.text == text,
            q.speaker == speaker,
            forall|i: int| 0 <= i < old(self)@.len() ==> q.id@ != old(self)@[i].id@,
    {
        let id = u64_to_dec(self.quotes.len() as u64);
        let q = Quote { id, text, speaker };
        let out = q.clone();
        proof {
            let n = self.quotes@.len() as int;
            assert forall|i: int| 0 <= i < n implies q.id@ != self.quotes@[i].id@ by {
                if q.id@ == self.quotes@[i].id@ {
                    lemma_dec_chars_injective(n as nat, i as nat);
                }
            }
        }
        self.quotes.push(q);
        out
    }

    /// A snapshot of every record, in insertion order.
    pub fn list(&self) -> (r: Vec<Quote>)
        ensures
            r@ =~= self@,
    {
        let mut r: Vec<Quote> = Vec::new();
        let n = self.quotes.len();
        let mut i: usize = 0;
        while i < n
            invariant
                n == self.quotes@.len(),
                i <= n,
                r@ =~= self.quotes@.subrange(0, i as int),
            decreases n - i,
        {
            r.push(self.quotes[i].clone());
            i += 1;
        }
        r
    }

    /// The record whose identifier is `id`, or `NotFound` exactly when
    /// no record carries it.
    pub fn get_by_id(&self, id: &str) -> (r: Result<Quote, StoreError>)
        ensures
            match r {
                Ok(q) => exists|i: int| 0 <= i < self@.len() && self@[i] == q && q.id@ == id@,
                Err(e) => e == StoreError::NotFound && forall|i: int|
                    0 <= i < self@.len() ==> self@[i].id@ != id@,
            },
    {
        let key = id.to_owned();
        let n = self.quotes.len();
        let mut i: usize = 0;
        while i < n
            invariant
                n == self.quotes@.len(),
                i <= n,
                key@ == id@,
                forall|j: int| 0 <= j < i ==> self.quotes@[j].id@ != id@,
            decreases n - i,
        {
            if self.quotes[i].id == key {
                let q = self.quotes[i].clone();
                proof {
                    assert(0 <= i < self@.len() && self@[i as int] == q && q.id@ == id@);
                }
                return Ok(q);
            }
            i += 1;
        }
        Err(StoreError::NotFound)
    }

    /// Some record of the current collection, picked uniformly at
    /// random; `EmptyCollection` exactly when there is none.
    pub fn get_random(&self) -> (r: Result<Quote, StoreError>)
        ensures
            match r {
                Ok(q) => self@.len() > 0 && exists|i: int| 0 <= i < self@.len() && self@[i] == q,
                Err(e) => e == StoreError::EmptyCollection && self@.len() == 0,
            },
    {
        let n = self.quotes.len();
        if n == 0 {
            Err(StoreError::EmptyCollection)
        } else {
            let i = random_below(n);
            Ok(self.quotes[i].clone())
        }
    }
}

} // verus!
