//! The session's Secrets service: an id-to-bytes store with a hard size
//! ceiling per secret.

use crate::assoc::{assoc_keys_distinct, assoc_lookup, lemma_assoc_absent, lemma_assoc_at,
    lemma_assoc_push, lemma_assoc_remove};
use crate::BuildError;
use vstd::prelude::*;
use vstd::utf8::encode_utf8;

verus! {

/// Largest accepted secret, in bytes: 500 KiB.
pub const MAX_SECRET_SIZE: usize = 512000;

/// Provides secrets to the daemon during builds that mount them.
#[derive(Debug, Clone)]
pub struct SecretsServer {
    secrets: Vec<(String, Vec<u8>)>,
}

impl View for SecretsServer {
    type V = Seq<(Seq<char>, Seq<u8>)>;

    closed spec fn view(&self) -> Seq<(Seq<char>, Seq<u8>)> {
        self.secrets@.map_values(|e: (String, Vec<u8>)| (e.0@, e.1@))
    }
}

impl SecretsServer {
    /// The ids in the store are pairwise distinct.
    pub open spec fn wf(&self) -> bool {
        assoc_keys_distinct(self@)
    }

    /// The bytes stored under `id`, if any.
    pub open spec fn spec_get(&self, id: Seq<char>) -> Option<Seq<u8>> {
        assoc_lookup(self@, id)
    }

    /// An empty secrets store.
    pub fn new() -> (r: SecretsServer)
        ensures
            r@ == Seq::<(Seq<char>, Seq<u8>)>::empty(),
            r.wf(),
    {
        let r = SecretsServer { secrets: Vec::new() };
        proof {
            assert(r@ =~= Seq::<(Seq<char>, Seq<u8>)>::empty());
        }
        r
    }

    /// How many secrets are stored.
    pub fn len(&self) -> (r: usize)
        ensures
            r == self@.len(),
    {
        self.secrets.len()
    }

    fn position_of(&self, id: &str) -> (r: Option<usize>)
        ensures
            match r {
                Some(i) => i < self@.len() && self@[i as int].0 == id@ && forall|j: int|
                    0 <= j < i ==> (#[trigger] self@[j]).0 != id@,
                None => forall|j: int| 0 <= j < self@.len() ==> (#[trigger] self@[j]).0 != id@,
            },
    {
        let mut i: usize = 0;
        while i < self.secrets.len()
            invariant
                0 <= i <= self@.len(),
                self@.len() == self.secrets@.len(),
                forall|j: int| 0 <= j < i ==> (#[trigger] self@[j]).0 != id@,
            decreases self@.len() - i,
        {
            if crate::text::str_eq(self.secrets[i].0.as_str(), id) {
                return Some(i);
            }
            i += 1;
        }
        None
    }

    /// Store `data` under `id`, replacing any previous value. Rejected,
    /// with the store unchanged, exactly when `data` is over the ceiling.
    pub fn add_secret(&mut self, id: String, data: Vec<u8>) -> (r: Result<(), BuildError>)
        requires
            old(self).wf(),
        ensures
            final(self).wf(),
            data@.len() > MAX_SECRET_SIZE ==> ({
                &&& r matches Err(e)
                &&& e == BuildError::SecretTooLarge
                &&& final(self)@ == old(self)@
            }),
            data@.len() <= MAX_SECRET_SIZE ==> {
                &&& r is Ok
                &&& final(self).spec_get(id@) == Some(data@)
                &&& forall|q: Seq<char>|
                    q != id@ ==> #[trigger] final(self).spec_get(q) == old(self).spec_get(q)
                &&& old(self).spec_get(id@) is Some ==> final(self)@.len() == old(self)@.len()
                &&& old(self).spec_get(id@) is None ==> final(self)@.len() == old(self)@.len() + 1
            },
    {
        if data.len() > MAX_SECRET_SIZE {
            return Err(BuildError::SecretTooLarge);
        }
        let ghost pre = self@;
        let pos = self.position_of(id.as_str());
        match pos {
            Some(i) => {
                proof {
                    lemma_assoc_at(pre, id@, i as int);
                }
                self.secrets.remove(i);
                proof {
                    assert(self@ =~= pre.remove(i as int));
                    assert forall|a: int, b: int|
                        0 <= a < b < self@.len() implies (#[trigger] self@[a]).0
                        != (#[trigger] self@[b]).0 by {
                        let ra = if a < i { a } else { a + 1 };
                        let rb = if b < i { b } else { b + 1 };
                        assert(self@[a] == pre[ra]);
                        assert(self@[b] == pre[rb]);
                    }
                }
                let ghost mid = self@;
                self.secrets.push((id, data));
                proof {
                    assert(self@ =~= mid.push((id@, data@)));
                    assert forall|a: int, b: int|
                        0 <= a < b < self@.len() implies (#[trigger] self@[a]).0
                        != (#[trigger] self@[b]).0 by {
                        if b < self@.len() - 1 {
                            assert(self@[a] == mid[a]);
                            assert(self@[b] == mid[b]);
                        } else {
                            assert(self@[b] == (id@, data@));
                            if a < i {
                                assert(mid[a] == pre[a]);
                            } else {
                                assert(mid[a] == pre[a + 1]);
                            }
                        }
                    }
                    lemma_assoc_remove(pre, i as int, id@);
                    lemma_assoc_push(mid, id@, data@, id@);
                    assert forall|q: Seq<char>|
                        q != id@ implies #[trigger] assoc_lookup(self@, q) == assoc_lookup(
                        pre,
                        q,
                    ) by {
                        lemma_assoc_remove(pre, i as int, q);
                        lemma_assoc_push(mid, id@, data@, q);
                    }
                }
                Ok(())
            },
            None => {
                proof {
                    lemma_assoc_absent(pre, id@);
                }
                self.secrets.push((id, data));
                proof {
                    assert(self@ =~= pre.push((id@, data@)));
                    assert forall|a: int, b: int|
                        0 <= a < b < self@.len() implies (#[trigger] self@[a]).0
                        != (#[trigger] self@[b]).0 by {
                        if b < self@.len() - 1 {
                            assert(self@[a] == pre[a]);
                            assert(self@[b] == pre[b]);
                        } else {
                            assert(self@[b] == (id@, data@));
                            assert(self@[a] == pre[a]);
                        }
                    }
                    lemma_assoc_push(pre, id@, data@, id@);
                    assert forall|q: Seq<char>|
                        q != id@ implies #[trigger] assoc_lookup(self@, q) == assoc_lookup(
                        pre,
                        q,
                    ) by {
                        lemma_assoc_push(pre, id@, data@, q);
                    }
                }
                Ok(())
            },
        }
    }

    /// Store the UTF-8 bytes of `value` under `id`.
    pub fn add_secret_string(&mut self, id: String, value: &str) -> (r: Result<(), BuildError>)
        requires
            old(self).wf(),
        ensures
            final(self).wf(),
            encode_utf8(value@).len() > MAX_SECRET_SIZE ==> ({
                &&& r matches Err(e)
                &&& e == BuildError::SecretTooLarge
                &&& final(self)@ == old(self)@
            }),
            encode_utf8(value@).len() <= MAX_SECRET_SIZE ==> {
                &&& r is Ok
                &&& final(self).spec_get(id@) == Some(encode_utf8(value@))
                &&& forall|q: Seq<char>|
                    q != id@ ==> #[trigger] final(self).spec_get(q) == old(self).spec_get(q)
            },
    {
        let data = value.as_bytes_vec();
        self.add_secret(id, data)
    }

    /// A store holding the UTF-8 bytes of each value, keyed by its id.
    /// Rejected exactly when some value is over the ceiling.
    pub fn from_map(secrets: Vec<(String, String)>) -> (r: Result<SecretsServer, BuildError>)
        requires
            forall|i: int, j: int|
                0 <= i < j < secrets@.len() ==> (#[trigger] secrets@[i]).0@ != (
                #[trigger] secrets@[j]).0@,
        ensures
            (r is Ok) <==> (forall|i: int|
                0 <= i < secrets@.len() ==> encode_utf8((#[trigger] secrets@[i]).1@).len()
                    <= MAX_SECRET_SIZE),
            r matches Err(e) ==> e == BuildError::SecretTooLarge,
            r matches Ok(server) ==> {
                &&& server.wf()
                &&& forall|i: int|
                    0 <= i < secrets@.len() ==> #[trigger] server.spec_get(secrets@[i].0@) == Some(
                        encode_utf8(secrets@[i].1@),
                    )
                &&& forall|q: Seq<char>|
                    (forall|i: int| 0 <= i < secrets@.len() ==> (#[trigger] secrets@[i]).0@ != q)
                        ==> #[trigger] server.spec_get(q) is None
            },
    {
        let mut server = SecretsServer::new();
        let mut i: usize = 0;
        while i < secrets.len()
            invariant
                0 <= i <= secrets@.len(),
                server.wf(),
                forall|a: int, b: int|
                    0 <= a < b < secrets@.len() ==> (#[trigger] secrets@[a]).0@ != (
                    #[trigger] secrets@[b]).0@,
                forall|j: int|
                    0 <= j < i ==> encode_utf8((#[trigger] secrets@[j]).1@).len()
                        <= MAX_SECRET_SIZE,
                forall|j: int|
                    0 <= j < i ==> #[trigger] server.spec_get(secrets@[j].0@) == Some(
                        encode_utf8(secrets@[j].1@),
                    ),
                forall|q: Seq<char>|
                    (forall|j: int| 0 <= j < i ==> (#[trigger] secrets@[j]).0@ != q)
                        ==> #[trigger] server.spec_get(q) is None,
            decreases secrets@.len() - i,
        {
            let id = secrets[i].0.clone();
            let value = secrets[i].1.clone();
            let added = server.add_secret_string(id, value.as_str());
            match added {
                Ok(()) => {},
                Err(e) => {
                    return Err(e);
                },
            }
            i += 1;
        }
        Ok(server)
    }

    /// The bytes stored under `id`, or an error naming the missing id.
    /// The error message is `secret <id> not found`.
    pub fn get_secret(&self, id: &str) -> (r: Result<Vec<u8>, String>)
        ensures
            match r {
                Ok(d) => self.spec_get(id@) == Some(d@),
                Err(m) => self.spec_get(id@) is None && m@ == "secret "@ + id@ + " not found"@,
            },
    {
        let pos = self.position_of(id);
        match pos {
            Some(i) => {
                proof {
                    lemma_assoc_at(self@, id@, i as int);
                }
                let e = &self.secrets[i];
                Ok(e.1.clone())
            },
            None => {
                proof {
                    lemma_assoc_absent(self@, id@);
                }
                let mut m = String::from_str("secret ");
                m.append(id);
                m.append(" not found");
                Err(m)
            },
        }
    }
}

} // verus!
