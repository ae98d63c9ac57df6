use vstd::prelude::*;
use crate::errors::StoreError;
use vstd::string::StrSliceExecFns;

verus! {

/// Every short code the store hands out has this many characters.
pub const SHORT_CODE_LEN: usize = 5;

spec fn has_key(s: Seq<(String, String)>, k: Seq<char>) -> bool {
    exists|i: int| 0 <= i < s.len() && s[i].0@ == k
}

spec fn index_of(s: Seq<(String, String)>, k: Seq<char>) -> int {
    choose|i: int| 0 <= i < s.len() && s[i].0@ == k
}

spec fn map_of(s: Seq<(String, String)>) -> Map<Seq<char>, Seq<char>> {
    Map::new(|k: Seq<char>| has_key(s, k), |k: Seq<char>| s[index_of(s, k)].1@)
}

spec fn distinct_keys(s: Seq<(String, String)>) -> bool {
    forall|i: int, j: int|
        0 <= i < s.len() && 0 <= j < s.len() && i != j ==> s[i].0@ != s[j].0@
}

proof fn lemma_map_at(s: Seq<(String, String)>, i: int)
    requires
        distinct_keys(s),
        0 <= i < s.len(),
    ensures
        map_of(s).contains_key(s[i].0@),
        map_of(s)[s[i].0@] == s[i].1@,
{
    assert(has_key(s, s[i].0@));
    let j = index_of(s, s[i].0@);
    assert(0 <= j < s.len() && s[j].0@ == s[i].0@);
    assert(j == i);
}

proof fn lemma_remove_entry(s: Seq<(String, String)>, i: int)
    requires
        distinct_keys(s),
        0 <= i < s.len(),
    ensures
        distinct_keys(s.remove(i)),
        map_of(s.remove(i)) == map_of(s).remove(s[i].0@),
{
    let t = s.remove(i);
    let k = s[i].0@;
    assert forall|a: int, b: int|
        0 <= a < t.len() && 0 <= b < t.len() && a != b implies t[a].0@ != t[b].0@ by {
        let a2: int = if a < i { a } else { a + 1 };
        let b2: int = if b < i { b } else { b + 1 };
        assert(t[a] == s[a2]);
        assert(t[b] == s[b2]);
    }
    let m1 = map_of(t);
    let m2 = map_of(s).remove(k);
    assert forall|k2: Seq<char>| #[trigger] m1.dom().contains(k2) implies m2.dom().contains(k2)
        && m1[k2] == m2[k2] by {
        let a = choose|a: int| 0 <= a < t.len() && t[a].0@ == k2;
        let a2: int = if a < i { a } else { a + 1 };
        assert(t[a] == s[a2]);
        if k2 == k {
            assert(s[a2].0@ == s[i].0@ && a2 != i);
            assert(false);
        }
        assert(has_key(s, k2));
        lemma_map_at(s, a2);
        lemma_map_at(t, a);
    }
    assert forall|k2: Seq<char>| #[trigger] m2.dom().contains(k2) implies m1.dom().contains(
        k2,
    ) by {
        let a = choose|a: int| 0 <= a < s.len() && s[a].0@ == k2;
        assert(a != i);
        let a2: int = if a < i { a } else { a - 1 };
        assert(t[a2] == s[a]);
        assert(has_key(t, k2));
        lemma_map_at(t, a2);
    }
    assert(m1 =~= m2);
}

proof fn lemma_push_entry(s: Seq<(String, String)>, p: (String, String))
    requires
        distinct_keys(s),
        !has_key(s, p.0@),
    ensures
        distinct_keys(s.push(p)),
        map_of(s.push(p)) == map_of(s).insert(p.0@, p.1@),
{
    let t = s.push(p);
    let n = s.len() as int;
    assert forall|a: int, b: int|
        0 <= a < t.len() && 0 <= b < t.len() && a != b implies t[a].0@ != t[b].0@ by {
        if a < n && b < n {
            assert(t[a] == s[a]);
            assert(t[b] == s[b]);
        } else if a == n {
            assert(t[b] == s[b]);
            assert(!(s[b].0@ == p.0@));
        } else {
            assert(t[a] == s[a]);
            assert(!(s[a].0@ == p.0@));
        }
    }
    let m1 = map_of(t);
    let m2 = map_of(s).insert(p.0@, p.1@);
    assert forall|k2: Seq<char>| #[trigger] m1.dom().contains(k2) implies m2.dom().contains(k2)
        && m1[k2] == m2[k2] by {
        let a = choose|a: int| 0 <= a < t.len() && t[a].0@ == k2;
        lemma_map_at(t, a);
        if k2 == p.0@ {
            assert(a == n);
        } else {
            assert(a != n);
            assert(t[a] == s[a]);
            assert(has_key(s, k2));
            lemma_map_at(s, a);
        }
    }
    assert forall|k2: Seq<char>| #[trigger] m2.dom().contains(k2) implies m1.dom().contains(
        k2,
    ) by {
        if k2 == p.0@ {
            assert(t[n].0@ == k2);
            assert(has_key(t, k2));
        } else {
            let a = choose|a: int| 0 <= a < s.len() && s[a].0@ == k2;
            assert(t[a] == s[a]);
            assert(has_key(t, k2));
        }
    }
    assert(m1 =~= m2);
}

/// Law: a code resolves, to the url just bound to it, straight after
/// the shorten that bound it — whatever mapping the code had before.
pub proof fn lemma_resolve_after_shorten(
    m: Map<Seq<char>, Seq<char>>,
    code: Seq<char>,
    url: Seq<char>,
)
    ensures
        m.insert(code, url).contains_key(code),
        m.insert(code, url)[code] == url,
{
}

/// Law: straight after a delete the code no longer resolves, so a
/// second delete of the same code finds nothing either.
pub proof fn lemma_resolve_after_delete(m: Map<Seq<char>, Seq<char>>, code: Seq<char>)
    ensures
        !m.remove(code).contains_key(code),
{
}

/// Relies on uuid's `Uuid::new_v4` and its `Display` form: a fresh
/// random version-4 UUID rendered as 36 hyphenated lowercase
/// hexadecimal characters.
#[verifier::external_body]
fn fresh_token() -> (r: String)
    ensures
        r@.len() == 36,
{
    uuid::Uuid::new_v4().to_string()
}

/// A fresh short code: a fixed-length slice of a random token. Nothing
/// relates it to the codes already in use, so a collision with a live
/// code is possible and the caller decides what a collision does.
fn make_code() -> (code: String)
    ensures
        code@.len() == SHORT_CODE_LEN as nat,
{
    let token = fresh_token();
    let code = token.as_str().substring_char(0, SHORT_CODE_LEN);
    code.to_owned()
}

/// The table from short code to target URL. Its view is the map each
/// live code resolves under; codes are generated at insertion time and
/// a regenerated code silently overwrites the mapping it collides with.
pub struct LinkStore {
    entries: Vec<(String, String)>,
}

impl View for LinkStore {
    type V = Map<Seq<char>, Seq<char>>;

    closed spec fn view(&self) -> Map<Seq<char>, Seq<char>> {
        map_of(self.entries@)
    }
}

impl LinkStore {
    /// No two live entries share a short code.
    pub closed spec fn wf(&self) -> bool {
        distinct_keys(self.entries@)
    }

    pub fn new() -> (s: LinkStore)
        ensures
            s.wf(),
            s@ =~= Map::<Seq<char>, Seq<char>>::empty(),
    {
        let s = LinkStore { entries: Vec::new() };
        proof {
            assert forall|k: Seq<char>| !has_key(s.entries@, k) by {}
            assert(s@ =~= Map::<Seq<char>, Seq<char>>::empty());
        }
        s
    }

    fn find(&self, key: &String) -> (r: Option<usize>)
        ensures
            match r {
                Some(i) => i < self.entries@.len() && self.entries@[i as int].0@ == key@,
                None => forall|j: int| 0 <= j < self.entries@.len() ==> self.entries@[j].0@ != key@,
            },
    {
        let n = self.entries.len();
        let mut i: usize = 0;
        while i < n
            invariant
                n == self.entries@.len(),
                i <= n,
                forall|j: int| 0 <= j < i ==> self.entries@[j].0@ != key@,
            decreases n - i,
        {
            if self.entries[i].0 == *key {
                return Some(i);
            }
            i += 1;
        }
        None
    }

    /// Generates a short code, binds it to `url` (overwriting whatever
    /// mapping a colliding code had), and returns the code together
    /// with the echoed url.
    pub fn shorten(&mut self, url: String) -> (r: (String, String))
        requires
            old(self).wf(),
        ensures
            final(self).wf(),
            final(self)@ == old(self)@.insert(r.0@, url@),
            r.0@.len() == SHORT_CODE_LEN as nat,
            r.1 == url,
    {
        let code = make_code();
        let ghost s0 = self.entries@;
        let ghost m0 = map_of(s0);
        match self.find(&code) {
            Some(i) => {
                self.entries.remove(i);
                proof {
                    lemma_remove_entry(s0, i as int);
                    assert(!has_key(self.entries@, code@)) by {
                        if has_key(self.entries@, code@) {
                            let a = choose|a: int|
                                0 <= a < self.entries@.len() && self.entries@[a].0@ == code@;
                            lemma_map_at(self.entries@, a);
                            assert(map_of(self.entries@).contains_key(code@));
                            assert(false);
                        }
                    }
                }
            },
            None => {},
        }
        let ghost s1 = self.entries@;
        let pair = (code.clone(), url.clone());
        self.entries.push(pair);
        proof {
            lemma_push_entry(s1, pair);
            assert(map_of(self.entries@) =~= m0.insert(code@, url@));
        }
        (code, url)
    }

    /// The URL the code maps to, or `NotFound` exactly when the code is
    /// not live.
    pub fn resolve(&self, code: &str) -> (r: Result<String, StoreError>)
        requires
            self.wf(),
        ensures
            match r {
                Ok(url) => self@.contains_key(code@) && url@ == self@[code@],
                Err(e) => e == StoreError::NotFound && !self@.contains_key(code@),
            },
    {
        let key = code.to_owned();
        match self.find(&key) {
            Some(i) => {
                let url = self.entries[i].1.clone();
                proof {
                    lemma_map_at(self.entries@, i as int);
                }
                Ok(url)
            },
            None => {
                proof {
                    if self@.contains_key(code@) {
                        assert(has_key(self.entries@, code@));
                        let a = choose|a: int|
                            0 <= a < self.entries@.len() && self.entries@[a].0@ == code@;
                        assert(false);
                    }
                }
                Err(StoreError::NotFound)
            },
        }
    }

    /// Unbinds the code; `NotFound` exactly when it was not live, so a
    /// caller can tell "deleted" from "nothing to delete".
    pub fn delete(&mut self, code: &str) -> (r: Result<(), StoreError>)
        requires
            old(self).wf(),
        ensures
            final(self).wf(),
            match r {
                Ok(_) => old(self)@.contains_key(code@)
                    && final(self)@ == old(self)@.remove(code@),
                Err(e) => e == StoreError::NotFound && !old(self)@.contains_key(code@)
                    && final(self)@ == old(self)@,
            },
    {
        let key = code.to_owned();
        let ghost s0 = self.entries@;
        match self.find(&key) {
            Some(i) => {
                proof {
                    lemma_map_at(s0, i as int);
                }
                self.entries.remove(i);
                proof {
                    lemma_remove_entry(s0, i as int);
                }
                Ok(())
            },
            None => {
                proof {
                    if self@.contains_key(code@) {
                        assert(has_key(self.entries@, code@));
                        let a = choose|a: int|
                            0 <= a < self.entries@.len() && self.entries@[a].0@ == code@;
                        assert(false);
                    }
                }
                Err(StoreError::NotFound)
            },
        }
    }
}

} // verus!
