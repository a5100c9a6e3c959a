//! Binding frames and the stack of frames that makes up an environment.
use vstd::prelude::*;
use vstd::string::StringExecFns;
use crate::value::{Frame, Lookup, Lval, Value, lemma_entries_view};

verus! {

/// Index of the first binding of `k` in `f`, or -1 when `k` is unbound there.
pub open spec fn frame_pos(f: Frame, k: Seq<char>) -> int {
    if exists|i: int| 0 <= i < f.len() && f[i].0 == k {
        choose|i: int| 0 <= i < f.len() && f[i].0 == k && forall|j: int| 0 <= j < i ==> f[j].0 != k
    } else {
        -1
    }
}

pub open spec fn frame_get(f: Frame, k: Seq<char>) -> Option<Value> {
    let i = frame_pos(f, k);
    if i >= 0 {
        Some(f[i].1)
    } else {
        None
    }
}

/// `f` with `k` bound to `v`: the binding is replaced in place, or added.
pub open spec fn frame_put(f: Frame, k: Seq<char>, v: Value) -> Frame {
    let i = frame_pos(f, k);
    if i >= 0 {
        f.update(i, (k, v))
    } else {
        f.push((k, v))
    }
}

/// Lookup through a stack of frames, innermost (last) first.
pub open spec fn env_get(e: Seq<Frame>, k: Seq<char>) -> Option<Value>
    decreases e.len(),
{
    if e.len() == 0 {
        None
    } else {
        match frame_get(e.last(), k) {
            Some(v) => Some(v),
            None => env_get(e.drop_last(), k),
        }
    }
}

/// Binding in the innermost frame; nothing happens without a frame.
pub open spec fn env_insert(e: Seq<Frame>, k: Seq<char>, v: Value) -> Seq<Frame> {
    if e.len() == 0 {
        e
    } else {
        e.update(e.len() - 1, frame_put(e.last(), k, v))
    }
}

/// Binding in the outermost (root) frame; nothing happens without a frame.
pub open spec fn env_define(e: Seq<Frame>, k: Seq<char>, v: Value) -> Seq<Frame> {
    if e.len() == 0 {
        e
    } else {
        e.update(0, frame_put(e[0], k, v))
    }
}

/// Removal of the innermost frame; nothing happens without a frame.
pub open spec fn env_pop(e: Seq<Frame>) -> Seq<Frame> {
    if e.len() == 0 {
        e
    } else {
        e.drop_last()
    }
}

pub proof fn lemma_frame_pos(f: Frame, k: Seq<char>, i: int)
    requires
        0 <= i < f.len(),
        f[i].0 == k,
        forall|j: int| 0 <= j < i ==> f[j].0 != k,
    ensures
        frame_pos(f, k) == i,
{
    let p = frame_pos(f, k);
    assert(0 <= p < f.len() && f[p].0 == k && forall|j: int| 0 <= j < p ==> f[j].0 != k);
    if p < i {
        assert(f[p].0 != k);
    }
    if i < p {
        assert(f[i].0 != k);
    }
}

/// Well-formedness of a frame: each name is bound at most once.
pub open spec fn unique_keys(f: Frame) -> bool {
    forall|i: int, j: int| 0 <= i < j < f.len() ==> f[i].0 != f[j].0
}

/// Well-formedness of an environment: every frame is well formed.
pub open spec fn env_wf(e: Seq<Frame>) -> bool {
    forall|i: int| 0 <= i < e.len() ==> unique_keys(#[trigger] e[i])
}

pub proof fn lemma_frame_put_unique(f: Frame, k: Seq<char>, v: Value)
    requires
        unique_keys(f),
    ensures
        unique_keys(frame_put(f, k, v)),
{
    lemma_frame_pos_cases(f, k);
    let g = frame_put(f, k, v);
    let p = frame_pos(f, k);
    assert forall|i: int, j: int| 0 <= i < j < g.len() implies g[i].0 != g[j].0 by {
        if p >= 0 {
            if i != p && j != p {
                assert(f[i].0 != f[j].0);
            } else if i == p {
                assert(f[p].0 != f[j].0);
            } else {
                assert(f[i].0 != f[p].0);
            }
        } else if j < f.len() {
            assert(f[i].0 != f[j].0);
        }
    }
}

pub proof fn lemma_env_insert_wf(e: Seq<Frame>, k: Seq<char>, v: Value)
    requires
        env_wf(e),
    ensures
        env_wf(env_insert(e, k, v)),
        env_wf(env_define(e, k, v)),
        env_wf(env_pop(e)),
{
    if e.len() > 0 {
        lemma_frame_put_unique(e.last(), k, v);
        lemma_frame_put_unique(e[0], k, v);
        let a = env_insert(e, k, v);
        assert forall|i: int| 0 <= i < a.len() implies unique_keys(#[trigger] a[i]) by {
            if i != e.len() - 1 {
                assert(unique_keys(e[i]));
            }
        }
        let b = env_define(e, k, v);
        assert forall|i: int| 0 <= i < b.len() implies unique_keys(#[trigger] b[i]) by {
            if i != 0 {
                assert(unique_keys(e[i]));
            }
        }
        let c = env_pop(e);
        assert forall|i: int| 0 <= i < c.len() implies unique_keys(#[trigger] c[i]) by {
            assert(c[i] == e[i]);
        }
    }
}

proof fn lemma_first_match(f: Frame, k: Seq<char>, i: int)
    requires
        0 <= i < f.len(),
        f[i].0 == k,
    ensures
        exists|p: int| 0 <= p < f.len() && f[p].0 == k && forall|j: int| 0 <= j < p ==> f[j].0 != k,
    decreases i,
{
    if exists|j: int| 0 <= j < i && f[j].0 == k {
        let j = choose|j: int| 0 <= j < i && f[j].0 == k;
        lemma_first_match(f, k, j);
    }
}

/// `frame_pos` is the first binding of `k`, or -1 when there is none.
pub proof fn lemma_frame_pos_cases(f: Frame, k: Seq<char>)
    ensures
        frame_pos(f, k) == -1 ==> forall|j: int| 0 <= j < f.len() ==> f[j].0 != k,
        frame_pos(f, k) != -1 ==> {
            let p = frame_pos(f, k);
            &&& 0 <= p < f.len()
            &&& f[p].0 == k
            &&& forall|j: int| 0 <= j < p ==> f[j].0 != k
        },
{
    if exists|i: int| 0 <= i < f.len() && f[i].0 == k {
        let i = choose|i: int| 0 <= i < f.len() && f[i].0 == k;
        lemma_first_match(f, k, i);
    }
}

impl Lookup {
    pub fn new() -> (r: Lookup)
        ensures
            r@ == Seq::<(Seq<char>, Value)>::empty(),
            unique_keys(r@),
    {
        Lookup { entries: Vec::new() }
    }

    /// Where `key` is bound in this frame.
    pub fn position(&self, key: &String) -> (r: Option<usize>)
        ensures
            match r {
                Some(i) => frame_pos(self@, key@) == i && i < self.entries.len(),
                None => frame_pos(self@, key@) == -1,
            },
    {
        proof {
            lemma_entries_view(self.entries@);
        }
        let mut i: usize = 0;
        while i < self.entries.len()
            invariant
                i <= self.entries.len(),
                self@.len() == self.entries.len(),
                forall|j: int|
                    0 <= j < self.entries.len() ==> #[trigger] self@[j] == (
                        self.entries@[j].0@,
                        self.entries@[j].1@,
                    ),
                forall|j: int| 0 <= j < i ==> self@[j].0 != key@,
            decreases self.entries.len() - i,
        {
            if self.entries[i].0 == *key {
                proof {
                    lemma_frame_pos(self@, key@, i as int);
                }
                return Some(i);
            }
            i += 1;
        }
        None
    }

    pub fn get(&self, key: &str) -> (r: Option<Lval>)
        ensures
            match frame_get(self@, key@) {
                Some(v) => r matches Some(x) && x@ == v,
                None => r is None,
            },
    {
        let k = String::from_str(key);
        proof {
            lemma_entries_view(self.entries@);
        }
        match self.position(&k) {
            Some(i) => Some(self.entries[i].1.deep_clone()),
            None => None,
        }
    }

    /// Binds `key` to `lval` in this frame.
    pub fn insert(&mut self, key: &str, lval: Lval)
        ensures
            final(self)@ == frame_put(old(self)@, key@, lval@),
            unique_keys(old(self)@) ==> unique_keys(final(self)@),
    {
        proof {
            if unique_keys(self@) {
                lemma_frame_put_unique(self@, key@, lval@);
            }
        }
        let k = String::from_str(key);
        proof {
            lemma_entries_view(self.entries@);
        }
        match self.position(&k) {
            Some(i) => {
                self.entries[i] = (k, lval);
                proof {
                    lemma_entries_view(self.entries@);
                    assert(self@ =~= frame_put(old(self)@, key@, lval@));
                }
            },
            None => {
                self.entries.push((k, lval));
                proof {
                    lemma_entries_view(self.entries@);
                    assert(self@ =~= frame_put(old(self)@, key@, lval@));
                }
            },
        }
    }

    pub fn deep_clone(&self) -> (r: Lookup)
        ensures
            r@ == self@,
    {
        Lookup { entries: crate::value::clone_entries(&self.entries) }
    }
}

/// An environment: a stack of frames, the root first and the innermost last.
#[derive(Debug)]
pub struct Lenv {
    pub frames: Vec<Lookup>,
}

impl View for Lenv {
    type V = Seq<Frame>;

    open spec fn view(&self) -> Seq<Frame> {
        self.frames@.map_values(|f: Lookup| f@)
    }
}

impl Lenv {
    /// An environment without frames.
    pub fn new() -> (r: Lenv)
        ensures
            r@ == Seq::<Frame>::empty(),
    {
        let r = Lenv { frames: Vec::new() };
        assert(r@ =~= Seq::<Frame>::empty());
        r
    }

    /// Adds a new innermost frame.
    pub fn push(&mut self, lookup: Lookup)
        ensures
            final(self)@ == old(self)@.push(lookup@),
            env_wf(old(self)@) && unique_keys(lookup@) ==> env_wf(final(self)@),
    {
        self.frames.push(lookup);
        assert(self@ =~= old(self)@.push(lookup@));
    }

    /// Removes and returns the innermost frame.
    pub fn pop(&mut self) -> (r: Option<Lookup>)
        ensures
            final(self)@ == env_pop(old(self)@),
            env_wf(old(self)@) ==> env_wf(final(self)@),
            old(self)@.len() == 0 <==> r is None,
            r matches Some(f) ==> f@ == old(self)@.last(),
    {
        proof {
            if env_wf(self@) {
                lemma_env_insert_wf(self@, Seq::empty(), Value::Num(0));
            }
        }
        let r = self.frames.pop();
        assert(self@ =~= env_pop(old(self)@));
        r
    }

    /// The innermost frame.
    pub fn peek(&self) -> (r: Option<&Lookup>)
        ensures
            self@.len() == 0 <==> r is None,
            r matches Some(f) ==> f@ == self@.last(),
    {
        if self.frames.len() == 0 {
            None
        } else {
            Some(&self.frames[self.frames.len() - 1])
        }
    }

    /// The innermost frame, to change in place.
    pub fn peek_mut(&mut self) -> (r: Option<&mut Lookup>)
        ensures
            old(self)@.len() == 0 <==> r is None,
            r matches Some(f) ==> *f == old(self).frames@.last() && final(self).frames@
                == old(self).frames@.update(old(self).frames@.len() - 1, *final(f)),
            r is None ==> *final(self) == *old(self),
    {
        let n = self.frames.len();
        if n == 0 {
            None
        } else {
            Some(&mut self.frames[n - 1])
        }
    }

    /// The frames from the innermost out to the root.
    pub fn iter(&self) -> (r: Vec<&Lookup>)
        ensures
            r@.len() == self@.len(),
            forall|i: int| 0 <= i < r@.len() ==> #[trigger] r@[i]@ == self@[self@.len() - 1 - i],
    {
        let mut r: Vec<&Lookup> = Vec::new();
        let mut i: usize = self.frames.len();
        while i > 0
            invariant
                i <= self.frames.len(),
                r@.len() == self.frames.len() - i,
                forall|k: int|
                    0 <= k < r@.len() ==> #[trigger] r@[k]@ == self@[self@.len() - 1 - k],
            decreases i,
        {
            r.push(&self.frames[i - 1]);
            i -= 1;
        }
        r
    }

    /// Number of frames.
    pub fn depth(&self) -> (r: usize)
        ensures
            r == self@.len(),
    {
        self.frames.len()
    }

    /// Binds `key` in the innermost frame.
    pub fn insert(&mut self, key: &str, lval: Lval)
        ensures
            final(self)@ == env_insert(old(self)@, key@, lval@),
            env_wf(old(self)@) ==> env_wf(final(self)@),
    {
        proof {
            if env_wf(self@) {
                lemma_env_insert_wf(self@, key@, lval@);
            }
        }
        let n = self.frames.len();
        if n > 0 {
            self.frames[n - 1].insert(key, lval);
            assert(self@ =~= env_insert(old(self)@, key@, lval@));
        }
    }

    /// Binds `key` in the root frame, whatever the current depth.
    pub fn insert_last(&mut self, key: &str, lval: Lval)
        ensures
            final(self)@ == env_define(old(self)@, key@, lval@),
            env_wf(old(self)@) ==> env_wf(final(self)@),
    {
        proof {
            if env_wf(self@) {
                lemma_env_insert_wf(self@, key@, lval@);
            }
        }
        if self.frames.len() > 0 {
            self.frames[0].insert(key, lval);
            assert(self@ =~= env_define(old(self)@, key@, lval@));
        }
    }

    /// The innermost binding of `key`.
    pub fn get(&self, key: &str) -> (r: Option<Lval>)
        ensures
            match env_get(self@, key@) {
                Some(v) => r matches Some(x) && x@ == v,
                None => r is None,
            },
    {
        let mut i: usize = self.frames.len();
        assert(self@.take(i as int) =~= self@);
        while i > 0
            invariant
                i <= self.frames.len(),
                env_get(self@, key@) == env_get(self@.take(i as int), key@),
            decreases i,
        {
            let ghost e = self@.take(i as int);
            assert(e.drop_last() =~= self@.take(i - 1));
            assert(e.last() == self.frames@[i - 1]@);
            match self.frames[i - 1].get(key) {
                Some(v) => {
                    return Some(v);
                },
                None => {},
            }
            i -= 1;
        }
        None
    }
}

/// A fresh environment: one root frame holding the standard library.
pub fn init_env() -> (r: Lenv)
    ensures
        r@ == crate::builtin::install(
            seq![Seq::<(Seq<char>, Value)>::empty()],
            crate::builtin::LIBRARY_SIZE as nat,
        ),
        env_wf(r@),
{
    let mut env = Lenv::new();
    env.push(Lookup::new());
    assert(env@ =~= seq![Seq::<(Seq<char>, Value)>::empty()]);
    crate::builtin::init_builtins(&mut env);
    env
}

} // verus!
