//! The Vorbis comment multi-map: upper-cased keys, each with an ordered list of values.
use vstd::prelude::*;

verus! {

/// The ASCII upper-case form of a character.
pub open spec fn upper_char(c: char) -> char {
    if 'a' <= c && c <= 'z' {
        ((c as u32) - 32) as char
    } else {
        c
    }
}

/// The ASCII upper-case form of a string: the canonical form of a Vorbis field name.
pub open spec fn upper(s: Seq<char>) -> Seq<char> {
    s.map_values(|c: char| upper_char(c))
}

/// Relies on `str::to_ascii_uppercase`: ASCII letters upper-cased, every other character kept.
#[verifier::external_body]
fn ascii_uppercase(s: &str) -> (r: String)
    ensures
        r@ == upper(s@),
{
    s.to_ascii_uppercase()
}

/// Values joined by commas.
pub open spec fn join(vs: Seq<Seq<char>>) -> Seq<char>
    decreases vs.len(),
{
    if vs.len() == 0 {
        Seq::empty()
    } else if vs.len() == 1 {
        vs[0]
    } else {
        join(vs.drop_last()) + seq![','] + vs.last()
    }
}

/// The model of the map: (key, values) entries in order.
pub type VorbisModel = Seq<(Seq<char>, Seq<Seq<char>>)>;

/// The index of the entry with key `k`, or -1.
pub open spec fn find(m: VorbisModel, k: Seq<char>) -> int {
    if exists|i: int| 0 <= i < m.len() && #[trigger] m[i].0 == k {
        choose|i: int| 0 <= i < m.len() && #[trigger] m[i].0 == k
    } else {
        -1
    }
}

/// Keys are upper-cased and distinct, and each entry has a value.
pub open spec fn model_wf(m: VorbisModel) -> bool {
    &&& forall|i: int| 0 <= i < m.len() ==> upper(#[trigger] m[i].0) == m[i].0
    &&& forall|i: int, j: int| 0 <= i < j < m.len() ==> #[trigger] m[i].0 != #[trigger] m[j].0
    &&& forall|i: int| 0 <= i < m.len() ==> (#[trigger] m[i].1).len() > 0
}

/// `set`: the entry of the key holds `value` alone, or a new entry is appended.
pub open spec fn set_spec(m: VorbisModel, key: Seq<char>, value: Seq<char>) -> VorbisModel {
    let k = upper(key);
    if find(m, k) >= 0 {
        m.update(find(m, k), (k, seq![value]))
    } else {
        m.push((k, seq![value]))
    }
}

/// `add`: `value` is appended to the entry of the key unless it is there already, or a new
/// entry is appended.
pub open spec fn add_spec(m: VorbisModel, key: Seq<char>, value: Seq<char>) -> VorbisModel {
    let k = upper(key);
    if find(m, k) >= 0 {
        if m[find(m, k)].1.contains(value) {
            m
        } else {
            m.update(find(m, k), (k, m[find(m, k)].1.push(value)))
        }
    } else {
        m.push((k, seq![value]))
    }
}

/// `get`: the values of the key joined by commas.
pub open spec fn get_spec(m: VorbisModel, key: Seq<char>) -> Option<Seq<char>> {
    let k = upper(key);
    if find(m, k) >= 0 {
        Some(join(m[find(m, k)].1))
    } else {
        None
    }
}

pub proof fn lemma_upper_idem(s: Seq<char>)
    ensures
        upper(upper(s)) == upper(s),
{
    assert(upper(upper(s)) =~= upper(s));
}

/// The entry with a key, when keys are distinct, is the one `find` picks.
pub proof fn lemma_find_unique(m: VorbisModel, k: Seq<char>, i: int)
    requires
        model_wf(m),
        0 <= i < m.len(),
        m[i].0 == k,
    ensures
        find(m, k) == i,
{
    let j = find(m, k);
    if j != i {
        if j < i {
            assert(m[j].0 != m[i].0);
        } else {
            assert(m[i].0 != m[j].0);
        }
    }
}

/// A case-insensitive, multi-valued map of Vorbis comment fields.
pub struct VorbisVector {
    pub comments: Vec<(String, Vec<String>)>,
}

pub open spec fn entry_view(e: (String, Vec<String>)) -> (Seq<char>, Seq<Seq<char>>) {
    (e.0@, e.1@.map_values(|s: String| s@))
}

impl View for VorbisVector {
    type V = VorbisModel;

    open spec fn view(&self) -> VorbisModel {
        self.comments@.map_values(|e: (String, Vec<String>)| entry_view(e))
    }
}

fn clone_values(v: &Vec<String>) -> (r: Vec<String>)
    ensures
        r@.map_values(|s: String| s@) == v@.map_values(|s: String| s@),
{
    let mut out: Vec<String> = Vec::new();
    let mut i: usize = 0;
    while i < v.len()
        invariant
            i <= v@.len(),
            out@.len() == i,
            forall|k: int| 0 <= k < i ==> (#[trigger] out@[k])@ == v@[k]@,
        decreases v@.len() - i,
    {
        let c = v[i].clone();
        out.push(c);
        i = i + 1;
    }
    assert(out@.map_values(|s: String| s@) =~= v@.map_values(|s: String| s@));
    out
}

impl VorbisVector {
    pub open spec fn wf(&self) -> bool {
        model_wf(self@)
    }

    /// An empty map.
    pub fn new() -> (r: VorbisVector)
        ensures
            r@ == Seq::<(Seq<char>, Seq<Seq<char>>)>::empty(),
            r.wf(),
    {
        let r = VorbisVector { comments: Vec::new() };
        assert(r@ =~= Seq::<(Seq<char>, Seq<Seq<char>>)>::empty());
        r
    }

    /// The number of distinct keys.
    pub fn len(&self) -> (r: usize)
        ensures
            r == self@.len(),
    {
        self.comments.len()
    }

    /// The index of the entry with the (upper-cased) key `k`.
    fn index_of(&self, k: &String) -> (r: Option<usize>)
        requires
            self.wf(),
        ensures
            r matches Some(i) ==> find(self@, k@) == i as int,
            r is None ==> find(self@, k@) == -1,
    {
        let mut i: usize = 0;
        while i < self.comments.len()
            invariant
                self.wf(),
                i <= self.comments@.len(),
                forall|j: int| 0 <= j < i ==> #[trigger] self@[j].0 != k@,
            decreases self.comments@.len() - i,
        {
            if self.comments[i].0 == *k {
                proof {
                    lemma_find_unique(self@, k@, i as int);
                }
                return Some(i);
            }
            i = i + 1;
        }
        None
    }

    /// The values of `key`, compared without case, joined by commas.
    pub fn get(&self, key: &str) -> (r: Option<String>)
        requires
            self.wf(),
        ensures
            r matches Some(s) ==> get_spec(self@, key@) == Some(s@),
            r is None ==> get_spec(self@, key@) is None,
    {
        let k = ascii_uppercase(key);
        match self.index_of(&k) {
            Some(i) => {
                let vs = &self.comments[i].1;
                let mut out = String::new();
                let mut j: usize = 0;
                let ghost vals = self@[i as int].1;
                while j < vs.len()
                    invariant
                        j <= vs@.len(),
                        vals == vs@.map_values(|s: String| s@),
                        out@ == join(vals.subrange(0, j as int)),
                    decreases vs@.len() - j,
                {
                    proof {
                        assert(vals.subrange(0, j + 1).drop_last() =~= vals.subrange(0, j as int));
                    }
                    let ghost before = out@;
                    if j > 0 {
                        proof {
                            reveal_strlit(",");
                        }
                        out = out.concat(",");
                        assert(out@ =~= before + seq![',']);
                    }
                    out = out.concat(vs[j].as_str());
                    assert(vals[j as int] == vs@[j as int]@);
                    let ghost sj = vals.subrange(0, j + 1);
                    proof {
                        assert(sj.last() == vals[j as int]);
                        if j == 0 {
                            assert(sj.len() == 1);
                            assert(out@ =~= sj[0]);
                        } else {
                            assert(join(sj) == join(sj.drop_last()) + seq![','] + sj.last());
                            assert(out@ =~= join(sj));
                        }
                    }
                    j = j + 1;
                }
                assert(vals.subrange(0, vals.len() as int) =~= vals);
                Some(out)
            },
            None => None,
        }
    }
}

/// The key of an entry differs from `k`.
pub open spec fn key_differs(k: Seq<char>) -> spec_fn((Seq<char>, Seq<Seq<char>>)) -> bool {
    |e: (Seq<char>, Seq<Seq<char>>)| e.0 != k
}

proof fn lemma_set_wf(m: VorbisModel, k: Seq<char>, vals: Seq<Seq<char>>)
    requires
        model_wf(m),
        upper(k) == k,
        vals.len() > 0,
    ensures
        find(m, k) >= 0 ==> model_wf(m.update(find(m, k), (k, vals))),
        find(m, k) < 0 ==> model_wf(m.push((k, vals))),
{
    if find(m, k) >= 0 {
        let i = find(m, k);
        let n = m.update(i, (k, vals));
        assert forall|a: int, b: int| 0 <= a < b < n.len() implies #[trigger] n[a].0 != #[trigger] n[b].0 by {
            assert(m[a].0 != m[b].0);
        }
    } else {
        let n = m.push((k, vals));
        assert forall|a: int, b: int| 0 <= a < b < n.len() implies #[trigger] n[a].0 != #[trigger] n[b].0 by {
            if b == m.len() {
                assert(m[a].0 != k);
            } else {
                assert(m[a].0 != m[b].0);
            }
        }
    }
}

/// Removing the entries of a key keeps the map well formed.
proof fn lemma_filter_wf(m: VorbisModel, k: Seq<char>)
    requires
        model_wf(m),
    ensures
        model_wf(m.filter(key_differs(k))),
    decreases m.len(),
{
    if m.len() > 0 {
        let d = m.drop_last();
        assert(model_wf(d)) by {
            assert forall|a: int, b: int| 0 <= a < b < d.len() implies #[trigger] d[a].0 != #[trigger] d[b].0 by {
                assert(m[a].0 != m[b].0);
            }
        }
        lemma_filter_wf(d, k);
        assert(m =~= d.push(m.last()));
        d.lemma_filter_push(m.last(), key_differs(k));
        let fd = d.filter(key_differs(k));
        if key_differs(k)(m.last()) {
            let f = fd.push(m.last());
            assert forall|a: int, b: int| 0 <= a < b < f.len() implies #[trigger] f[a].0 != #[trigger] f[b].0 by {
                if b == fd.len() {
                    d.lemma_filter_contains_rev(key_differs(k), fd[a]);
                    let t = choose|t: int| 0 <= t < d.len() && d[t] == fd[a];
                    assert(m[t].0 != m[m.len() - 1].0);
                }
            }
        }
    } else {
        assert(m.filter(key_differs(k)) =~= m) by {
            reveal(Seq::filter);
        }
    }
}

impl VorbisVector {
    /// Replaces the values of `key` (upper-cased) by `value` alone, or appends a new entry.
    pub fn set(&mut self, key: &str, value: &str)
        requires
            old(self).wf(),
        ensures
            final(self).wf(),
            final(self)@ == set_spec(old(self)@, key@, value@),
    {
        let k = ascii_uppercase(key);
        proof {
            lemma_upper_idem(key@);
            lemma_set_wf(self@, k@, seq![value@]);
        }
        let mut vals: Vec<String> = Vec::new();
        vals.push(value.to_owned());
        assert(vals@.map_values(|s: String| s@) =~= seq![value@]);
        match self.index_of(&k) {
            Some(i) => {
                let ghost before = self@;
                let _ = self.comments.remove(i);
                self.comments.insert(i, (k, vals));
                assert(self@ =~= before.update(i as int, (upper(key@), seq![value@])));
            },
            None => {
                let ghost before = self@;
                self.comments.push((k, vals));
                assert(self@ =~= before.push((upper(key@), seq![value@])));
            },
        }
    }

    /// Appends `value` to the values of `key` (upper-cased) unless it is there already, or
    /// appends a new entry.
    pub fn add(&mut self, key: &str, value: &str)
        requires
            old(self).wf(),
        ensures
            final(self).wf(),
            final(self)@ == add_spec(old(self)@, key@, value@),
    {
        let k = ascii_uppercase(key);
        proof {
            lemma_upper_idem(key@);
        }
        match self.index_of(&k) {
            Some(i) => {
                let v = value.to_owned();
                let mut present = false;
                let mut j: usize = 0;
                let ghost vals = self@[i as int].1;
                while j < self.comments[i].1.len()
                    invariant
                        i < self.comments@.len(),
                        vals == self.comments@[i as int].1@.map_values(|s: String| s@),
                        j <= vals.len(),
                        present == exists|t: int| 0 <= t < j && vals[t] == v@,
                    decreases vals.len() - j,
                {
                    assert(vals[j as int] == self.comments@[i as int].1@[j as int]@);
                    if self.comments[i].1[j] == v {
                        present = true;
                    }
                    j = j + 1;
                }
                proof {
                    if vals.contains(v@) {
                        let t = choose|t: int| 0 <= t < vals.len() && vals[t] == v@;
                        assert(exists|t: int| 0 <= t < j && vals[t] == v@);
                    }
                    if present {
                        let t = choose|t: int| 0 <= t < j && vals[t] == v@;
                        assert(vals.contains(v@));
                    }
                }
                if !present {
                    let ghost before = self@;
                    proof {
                        lemma_set_wf(before, k@, vals.push(v@));
                    }
                    let (kk, mut vs) = self.comments.remove(i);
                    assert(kk@ == before[i as int].0);
                    assert(before[i as int].0 == k@);
                    let ghost vs0 = vs@;
                    vs.push(v);
                    assert(vs@.map_values(|s: String| s@) =~= vals.push(value@)) by {
                        assert(vs@ == vs0.push(vs@.last()));
                        assert(vals == vs0.map_values(|s: String| s@));
                    }
                    self.comments.insert(i, (kk, vs));
                    assert(self@ =~= before.update(i as int, (k@, vals.push(value@))));
                }
            },
            None => {
                proof {
                    lemma_set_wf(self@, k@, seq![value@]);
                }
                let mut vals: Vec<String> = Vec::new();
                vals.push(value.to_owned());
                assert(vals@.map_values(|s: String| s@) =~= seq![value@]);
                let ghost before = self@;
                self.comments.push((k, vals));
                assert(self@ =~= before.push((upper(key@), seq![value@])));
            },
        }
    }

    /// Removes the entry of `key` (upper-cased).
    pub fn remove(&mut self, key: &str)
        requires
            old(self).wf(),
        ensures
            final(self).wf(),
            final(self)@ == old(self)@.filter(key_differs(upper(key@))),
    {
        let k = ascii_uppercase(key);
        let ghost all = self@;
        let ghost allc = self.comments@;
        let mut rest: Vec<(String, Vec<String>)> = Vec::new();
        std::mem::swap(&mut rest, &mut self.comments);
        let n = rest.len();
        let mut idx: usize = 0;
        assert(all.subrange(0, 0).filter(key_differs(k@)) =~= Seq::<(Seq<char>, Seq<Seq<char>>)>::empty()) by {
            reveal(Seq::filter);
        }
        while rest.len() > 0
            invariant
                n == all.len(),
                all == allc.map_values(|e: (String, Vec<String>)| entry_view(e)),
                idx + rest@.len() == n,
                rest@ == allc.subrange(idx as int, n as int),
                self@ == all.subrange(0, idx as int).filter(key_differs(k@)),
            decreases rest@.len(),
        {
            let e = rest.remove(0);
            let ghost ev = entry_view(e);
            proof {
                assert(ev == all[idx as int]);
                assert(all.subrange(0, idx + 1) =~= all.subrange(0, idx as int).push(ev));
                all.subrange(0, idx as int).lemma_filter_push(ev, key_differs(k@));
            }
            let ghost before = self@;
            if e.0 != k {
                self.comments.push(e);
                assert(self@ =~= before.push(ev));
            } else {
                assert(!key_differs(k@)(ev));
            }
            idx = idx + 1;
            assert(rest@ =~= allc.subrange(idx as int, n as int));
        }
        proof {
            assert(all.subrange(0, n as int) =~= all);
            lemma_filter_wf(all, k@);
        }
    }
}

proof fn lemma_find_present(m: VorbisModel, k: Seq<char>)
    requires
        find(m, k) >= 0,
    ensures
        0 <= find(m, k) < m.len(),
        m[find(m, k)].0 == k,
{
}

/// After `set(k, v)`, reading any key with the same upper-case form gives `v` alone.
pub proof fn lemma_set_then_get(m: VorbisModel, k1: Seq<char>, k2: Seq<char>, v: Seq<char>)
    requires
        model_wf(m),
        upper(k1) == upper(k2),
    ensures
        get_spec(set_spec(m, k1, v), k2) == Some(v),
{
    let k = upper(k1);
    lemma_upper_idem(k1);
    lemma_set_wf(m, k, seq![v]);
    let n = set_spec(m, k1, v);
    if find(m, k) >= 0 {
        lemma_find_present(m, k);
        lemma_find_unique(n, k, find(m, k));
    } else {
        lemma_find_unique(n, k, m.len() as int);
    }
    assert(join(seq![v]) == v);
}

/// Adding two different values to a key that has none yet, then reading it, gives both
/// values joined by a comma.
pub proof fn lemma_add_add_get(m: VorbisModel, k: Seq<char>, a: Seq<char>, b: Seq<char>)
    requires
        model_wf(m),
        find(m, upper(k)) < 0,
        a != b,
    ensures
        get_spec(add_spec(add_spec(m, k, a), k, b), k) == Some(a + seq![','] + b),
{
    let uk = upper(k);
    lemma_upper_idem(k);
    lemma_set_wf(m, uk, seq![a]);
    let m1 = add_spec(m, k, a);
    assert(m1 == m.push((uk, seq![a])));
    lemma_find_unique(m1, uk, m.len() as int);
    assert(!seq![a].contains(b)) by {
        if seq![a].contains(b) {
            let t = choose|t: int| 0 <= t < 1 && seq![a][t] == b;
        }
    }
    let vals = seq![a].push(b);
    lemma_set_wf(m1, uk, vals);
    let m2 = add_spec(m1, k, b);
    assert(m2 == m1.update(m.len() as int, (uk, vals)));
    lemma_find_unique(m2, uk, m.len() as int);
    assert(vals.drop_last() =~= seq![a]);
    assert(join(vals) == join(seq![a]) + seq![','] + b);
}

impl VorbisVector {
    /// A copy of the map.
    pub fn duplicate(&self) -> (r: VorbisVector)
        ensures
            r@ == self@,
    {
        let mut out: Vec<(String, Vec<String>)> = Vec::new();
        let mut i: usize = 0;
        while i < self.comments.len()
            invariant
                i <= self@.len(),
                out@.len() == i,
                forall|k: int| 0 <= k < i ==> entry_view(#[trigger] out@[k]) == self@[k],
            decreases self@.len() - i,
        {
            let k = self.comments[i].0.clone();
            let vs = clone_values(&self.comments[i].1);
            out.push((k, vs));
            i = i + 1;
        }
        let r = VorbisVector { comments: out };
        assert(r@ =~= self@);
        r
    }
}

} // verus!
