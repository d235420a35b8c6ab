//! The registry of loaded libraries: unique names with their handles, kept in
//! load order. Symbols resolve in the most recently loaded library that has them.
use vstd::prelude::*;

verus! {

/// Loaded libraries in load order. `H` is the native handle, which the
/// registry owns and hands back when an entry is replaced or removed.
pub struct Registry<H> {
    entries: Vec<(String, H)>,
}

/// Unloading a name that was not loaded.
#[derive(Debug, PartialEq, Eq)]
pub struct UnloadError {
    pub name: String,
}

/// No loaded library has the symbol; `searched` names every library looked in.
#[derive(Debug, PartialEq, Eq)]
pub struct SymbolError {
    pub searched: Vec<String>,
}

/// The index of the last entry that holds a value.
pub open spec fn newest_hit<P>(l: Seq<Option<P>>) -> Option<int>
    decreases l.len(),
{
    if l.len() == 0 {
        None
    } else if l.last() is Some {
        Some(l.len() - 1)
    } else {
        newest_hit(l.drop_last())
    }
}

/// Whether `n` occurs among the names.
pub open spec fn has_name(names: Seq<Seq<char>>, n: Seq<char>) -> bool {
    exists|k: int| 0 <= k < names.len() && names[k] == n
}

pub open spec fn unique(names: Seq<Seq<char>>) -> bool {
    forall|i: int, j: int| 0 <= i < j < names.len() ==> names[i] != names[j]
}

pub open spec fn string_views(v: Seq<String>) -> Seq<Seq<char>> {
    v.map_values(|s: String| s@)
}

impl<H> Registry<H> {
    /// The entries: names in load order with their handles.
    pub closed spec fn view(&self) -> Seq<(Seq<char>, H)> {
        self.entries@.map_values(|e: (String, H)| (e.0@, e.1))
    }

    /// The loaded names in load order.
    pub open spec fn names(&self) -> Seq<Seq<char>> {
        self@.map_values(|e: (Seq<char>, H)| e.0)
    }

    /// Names are unique keys.
    pub open spec fn wf(&self) -> bool {
        unique(self.names())
    }

    pub fn new() -> (r: Self)
        ensures
            r@ == Seq::<(Seq<char>, H)>::empty(),
            r.wf(),
    {
        let r = Registry { entries: Vec::new() };
        assert(r@ =~= Seq::<(Seq<char>, H)>::empty());
        assert(r.names() =~= Seq::<Seq<char>>::empty());
        r
    }

    pub fn len(&self) -> (r: usize)
        ensures
            r == self@.len(),
    {
        self.entries.len()
    }

    fn position(&self, name: &String) -> (r: Option<usize>)
        requires
            self.wf(),
        ensures
            r matches Some(k) ==> k < self@.len() && self.names()[k as int] == name@,
            r is None ==> !has_name(self.names(), name@),
    {
        let mut k: usize = 0;
        while k < self.entries.len()
            invariant
                k <= self.entries@.len(),
                self@.len() == self.entries@.len(),
                forall|m: int| 0 <= m < k ==> self.names()[m] != name@,
            decreases self.entries.len() - k,
        {
            proof {
                assert(self.names()[k as int] == self.entries@[k as int].0@);
            }
            if self.entries[k].0 == *name {
                return Some(k);
            }
            k = k + 1;
        }
        None
    }

    /// Loads `lib` under `name`, the newest entry. An entry already under
    /// that name is taken out, and its handle returned.
    pub fn add_lib(&mut self, name: String, lib: H) -> (r: Option<H>)
        requires
            old(self).wf(),
        ensures
            final(self).wf(),
            !has_name(old(self).names(), name@) ==> r is None && final(self)@ == old(self)@.push(
                (name@, lib),
            ),
            has_name(old(self).names(), name@) ==> exists|k: int|
                0 <= k < old(self)@.len() && old(self)@[k].0 == name@ && r == Some(old(self)@[k].1)
                    && final(self)@ == old(self)@.remove(k).push((name@, lib)),
    {
        let ghost before = self@;
        let ghost nb = old(self).names();
        let replaced = match self.position(&name) {
            Some(k) => {
                let (_, h) = self.entries.remove(k);
                proof {
                    assert(self@ =~= before.remove(k as int));
                    let nm = self.names();
                    assert(nm =~= nb.remove(k as int));
                    assert forall|i: int| 0 <= i < nm.len() implies nm[i] != name@ by {
                        if i < k {
                            assert(nm[i] == nb[i]);
                        } else {
                            assert(nm[i] == nb[i + 1]);
                        }
                    }
                    assert forall|i: int, j: int| 0 <= i < j < nm.len() implies nm[i] != nm[j] by {
                        let i0 = if i < k {
                            i
                        } else {
                            i + 1
                        };
                        let j0 = if j < k {
                            j
                        } else {
                            j + 1
                        };
                        assert(nm[i] == nb[i0]);
                        assert(nm[j] == nb[j0]);
                    }
                }
                Some(h)
            },
            None => {
                proof {
                    let nm = self.names();
                    assert forall|i: int| 0 <= i < nm.len() implies nm[i] != name@ by {
                        if nm[i] == name@ {
                            assert(has_name(nb, name@));
                        }
                    }
                }
                None
            },
        };
        let ghost mid = self@;
        let ghost nm = self.names();
        self.entries.push((name, lib));
        proof {
            assert(self@ =~= mid.push((name@, lib)));
            assert(self.names() =~= nm.push(name@));
        }
        replaced
    }

    /// Unloads `name` and hands its handle back; fails, changing nothing,
    /// when no library of that name is loaded.
    pub fn del_lib(&mut self, name: &str) -> (r: Result<H, UnloadError>)
        requires
            old(self).wf(),
        ensures
            final(self).wf(),
            r is Ok <==> has_name(old(self).names(), name@),
            r matches Err(e) ==> e.name@ == name@ && final(self)@ == old(self)@,
            r matches Ok(h) ==> exists|k: int|
                0 <= k < old(self)@.len() && old(self)@[k] == (name@, h) && final(self)@ == old(
                    self,
                )@.remove(k),
    {
        let key = name.to_owned();
        match self.position(&key) {
            Some(k) => {
                let ghost before = self@;
                let ghost nb = self.names();
                let (_, h) = self.entries.remove(k);
                proof {
                    assert(self@ =~= before.remove(k as int));
                    let ns = self.names();
                    assert(ns =~= nb.remove(k as int));
                    assert forall|i: int, j: int| 0 <= i < j < ns.len() implies ns[i] != ns[j] by {
                        let i0 = if i < k {
                            i
                        } else {
                            i + 1
                        };
                        let j0 = if j < k {
                            j
                        } else {
                            j + 1
                        };
                        assert(ns[i] == nb[i0]);
                        assert(ns[j] == nb[j0]);
                    }
                }
                Ok(h)
            },
            None => Err(UnloadError { name: key }),
        }
    }

    /// The loaded names in load order.
    pub fn get_libs(&self) -> (r: Vec<String>)
        ensures
            string_views(r@) == self.names(),
    {
        let mut out: Vec<String> = Vec::new();
        let mut k: usize = 0;
        while k < self.entries.len()
            invariant
                k <= self.entries@.len(),
                self@.len() == self.entries@.len(),
                string_views(out@) == self.names().subrange(0, k as int),
            decreases self.entries.len() - k,
        {
            let ghost o = out@;
            out.push(self.entries[k].0.clone());
            proof {
                assert(self.names()[k as int] == self.entries@[k as int].0@);
                assert(string_views(out@) =~= string_views(o).push(self.names()[k as int]));
                assert(self.names().subrange(0, k + 1) =~= self.names().subrange(0, k as int).push(
                    self.names()[k as int],
                ));
            }
            k = k + 1;
        }
        assert(self.names().subrange(0, k as int) =~= self.names());
        out
    }

    /// The handles in load order, for looking a symbol up in each.
    pub fn handles(&self) -> (r: Vec<&H>)
        ensures
            r@.len() == self@.len(),
            forall|k: int| 0 <= k < r@.len() ==> *r@[k] == self@[k].1,
    {
        let mut out: Vec<&H> = Vec::new();
        let mut k: usize = 0;
        while k < self.entries.len()
            invariant
                k <= self.entries@.len(),
                self@.len() == self.entries@.len(),
                out@.len() == k,
                forall|m: int| 0 <= m < k ==> *out@[m] == self@[m].1,
            decreases self.entries.len() - k,
        {
            out.push(&self.entries[k].1);
            k = k + 1;
        }
        out
    }

    /// Resolves a symbol from the outcome of looking it up in each library,
    /// one outcome per entry in load order: the newest library that has it
    /// wins; when none has it, the error lists every library searched.
    pub fn get_sym<P>(&self, lookups: Vec<Option<P>>) -> (r: Result<P, SymbolError>)
        requires
            lookups@.len() == self@.len(),
        ensures
            r is Ok <==> newest_hit(lookups@) is Some,
            r matches Ok(p) ==> lookups@[newest_hit(lookups@)->0] == Some(p),
            r matches Err(e) ==> string_views(e.searched@) == self.names(),
    {
        let ghost all = lookups@;
        let mut rest = lookups;
        while rest.len() > 0
            invariant
                rest@ == all.subrange(0, rest@.len() as int),
                rest@.len() <= all.len(),
                newest_hit(all) == newest_hit(rest@),
                all == lookups@,
            decreases rest.len(),
        {
            let ghost before = rest@;
            match rest.pop() {
                Some(Some(p)) => {
                    assert(before.last() == Some(p));
                    assert(newest_hit(before) == Some(before.len() - 1));
                    assert(all[before.len() - 1] == before[before.len() - 1]);
                    assert(newest_hit(all) == Some(before.len() - 1));
                    assert(all[before.len() - 1] == Some(p));
                    return Ok(p);
                },
                _ => {
                    assert(rest@ =~= before.drop_last());
                    assert(rest@ =~= all.subrange(0, rest@.len() as int));
                },
            }
        }
        Err(SymbolError { searched: self.get_libs() })
    }
}

/// A symbol found in two or more loaded libraries resolves to exactly one of
/// them, the newest, and never fails; a symbol found in none resolves to
/// nothing.
pub proof fn lemma_resolution<P>(l: Seq<Option<P>>)
    ensures
        (exists|k: int| 0 <= k < l.len() && l[k] is Some) <==> newest_hit(l) is Some,
        newest_hit(l) matches Some(k) ==> 0 <= k < l.len() && l[k] is Some && forall|m: int|
            k < m < l.len() ==> l[m] is None,
    decreases l.len(),
{
    if l.len() > 0 && l.last() is None {
        lemma_resolution(l.drop_last());
        if exists|k: int| 0 <= k < l.len() && l[k] is Some {
            let k = choose|k: int| 0 <= k < l.len() && l[k] is Some;
            assert(l.drop_last()[k] is Some);
        }
        if newest_hit(l) is Some {
            let k = newest_hit(l)->0;
            assert(l[k] == l.drop_last()[k]);
            assert forall|m: int| k < m < l.len() implies l[m] is None by {
                if m < l.len() - 1 {
                    assert(l[m] == l.drop_last()[m]);
                }
            }
        }
    }
}

} // verus!
