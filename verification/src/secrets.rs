//! The secret map: string keys to string values, keys unique, order
//! irrelevant. The unit of data moved through every layer, and the home of
//! the two-way merge with "second argument wins" precedence.

use vstd::prelude::*;

verus! {

broadcast use vstd::utf8::encode_utf8_decode_utf8;

/// The map described by a sequence of key/value pairs, later pairs winning.
pub open spec fn pairs_to_map<V>(s: Seq<(Seq<char>, V)>) -> Map<Seq<char>, V>
    decreases s.len(),
{
    if s.len() == 0 {
        Map::empty()
    } else {
        pairs_to_map(s.drop_last()).insert(s.last().0, s.last().1)
    }
}

/// No key occurs twice in the sequence of pairs.
pub open spec fn keys_unique<V>(s: Seq<(Seq<char>, V)>) -> bool {
    forall|i: int, j: int| 0 <= i < j < s.len() ==> (#[trigger] s[i]).0 != (#[trigger] s[j]).0
}

/// The merge of two maps: every key of either side is present, and on a
/// collision the overlay's value wins.
pub open spec fn merged(
    base: Map<Seq<char>, Seq<char>>,
    overlay: Map<Seq<char>, Seq<char>>,
) -> Map<Seq<char>, Seq<char>> {
    base.union_prefer_right(overlay)
}

/// What a rendering of the pairs shows of each: the key, and the value
/// only when `reveal` is set — the redaction sentinel otherwise.
pub open spec fn spec_displayed(
    s: Seq<(Seq<char>, Seq<char>)>,
    reveal: bool,
) -> Seq<(Seq<char>, Seq<char>)> {
    Seq::new(s.len(), |i: int| (s[i].0, if reveal { s[i].1 } else { "**redacted**"@ }))
}

/// What the table shows: with `reveal` set, exactly the pairs themselves;
/// without it, every key beside the redaction sentinel and nothing of any
/// value.
pub proof fn lemma_displayed(s: Seq<(Seq<char>, Seq<char>)>)
    ensures
        spec_displayed(s, true) == s,
        spec_displayed(s, false).len() == s.len(),
        forall|i: int| 0 <= i < s.len() ==> (#[trigger] spec_displayed(s, false)[i])
            == (s[i].0, "**redacted**"@),
{
    assert(spec_displayed(s, true) =~= s);
}

/// The text the table crate renders for the given rows; a function of the
/// rows alone.
pub uninterp spec fn rendered_table(rows: Seq<(Seq<char>, Seq<char>)>) -> Seq<char>;

/// Relies on tabular::Table and tabular::Row: one aligned `key :: value`
/// row per pair, rendered from the pairs alone.
#[verifier::external_body]
fn render_rows(rows: &Vec<(String, String)>) -> (r: String)
    ensures
        r@ == rendered_table(Seq::new(rows@.len(), |i: int| (rows@[i].0@, rows@[i].1@))),
{
    let mut table = tabular::Table::new("{:>} :: {:<}");
    for (key, value) in rows.iter() {
        table.add_row(tabular::Row::new().with_cell(key).with_cell(value));
    }
    table.to_string()
}

/// Secret name to secret value, with no duplicate names.
pub struct Secrets {
    pairs: Vec<(String, String)>,
}

impl View for Secrets {
    type V = Seq<(Seq<char>, Seq<char>)>;

    closed spec fn view(&self) -> Seq<(Seq<char>, Seq<char>)> {
        Seq::new(self.pairs@.len(), |i: int| (self.pairs@[i].0@, self.pairs@[i].1@))
    }
}

/// String equality, decided byte by byte on the UTF-8 encodings.
pub fn str_eq(a: &str, b: &str) -> (r: bool)
    ensures
        r == (a@ == b@),
{
    let ab = a.as_bytes();
    let bb = b.as_bytes();
    if ab.len() != bb.len() {
        return false;
    }
    let n = ab.len();
    let mut i: usize = 0;
    while i < n
        invariant
            n == ab@.len() == bb@.len(),
            i <= n,
            ab@ == vstd::string::StringSliceAdditionalSpecFns::spec_bytes(a),
            bb@ == vstd::string::StringSliceAdditionalSpecFns::spec_bytes(b),
            forall|j: int| 0 <= j < i ==> ab@[j] == bb@[j],
        decreases n - i,
    {
        if ab[i] != bb[i] {
            return false;
        }
        i += 1;
    }
    proof {
        assert(ab@ =~= bb@);
        vstd::utf8::encode_utf8_decode_utf8(a@);
        vstd::utf8::encode_utf8_decode_utf8(b@);
    }
    true
}

impl Secrets {
    /// Well-formedness: constructors establish it, methods keep it.
    pub open spec fn wf(self) -> bool {
        keys_unique(self@)
    }

    /// The map this value denotes: its pairs, read in order.
    pub open spec fn as_map(self) -> Map<Seq<char>, Seq<char>> {
        pairs_to_map(self@)
    }

    pub fn new() -> (r: Secrets)
        ensures
            r.wf(),
            r@.len() == 0,
            r.as_map() == Map::<Seq<char>, Seq<char>>::empty(),
    {
        Secrets { pairs: Vec::new() }
    }

    pub fn len(&self) -> (r: usize)
        ensures
            r == self@.len(),
    {
        self.pairs.len()
    }

    /// The position of `key` among the pairs, if it is there.
    fn find(&self, key: &str) -> (r: Option<usize>)
        ensures
            match r {
                Some(i) => i < self@.len() && self@[i as int].0 == key@,
                None => forall|i: int| 0 <= i < self@.len() ==> (#[trigger] self@[i]).0 != key@,
            },
    {
        let n = self.pairs.len();
        let mut i: usize = 0;
        while i < n
            invariant
                n == self@.len(),
                i <= n,
                forall|j: int| 0 <= j < i ==> (#[trigger] self@[j]).0 != key@,
            decreases n - i,
        {
            if str_eq(self.pairs[i].0.as_str(), key) {
                return Some(i);
            }
            i += 1;
        }
        None
    }

    /// The value stored under `key`, if any.
    pub fn get(&self, key: &str) -> (r: Option<&String>)
        requires
            self.wf(),
        ensures
            match r {
                Some(v) => self.as_map().contains_key(key@) && self.as_map()[key@] == v@,
                None => !self.as_map().contains_key(key@),
            },
    {
        proof {
            lemma_pairs_to_map_props(self@);
        }
        match self.find(key) {
            Some(i) => Some(&self.pairs[i].1),
            None => None,
        }
    }

    /// Stores `value` under `key`, replacing any earlier value of that key.
    pub fn insert(&mut self, key: String, value: String)
        requires
            old(self).wf(),
        ensures
            final(self).wf(),
            final(self).as_map() == old(self).as_map().insert(key@, value@),
    {
        let ghost s0 = self@;
        match self.find(key.as_str()) {
            Some(i) => {
                self.pairs.remove(i);
                proof {
                    assert(self@ =~= s0.remove(i as int));
                }
                self.pairs.push((key, value));
                proof {
                    assert(self@ =~= s0.remove(i as int).push((key@, value@)));
                    lemma_keys_unique_remove_push(s0, i as int, key@, value@);
                }
            },
            None => {
                self.pairs.push((key, value));
                proof {
                    assert(self@.drop_last() =~= s0);
                    assert(forall|j: int|
                        0 <= j < s0.len() ==> (#[trigger] self@[j]) == s0[j]);
                    assert(keys_unique(self@));
                }
            },
        }
    }

    /// The two-way combination: every key of either map is present, and the
    /// second argument's value wins on a collision.
    pub fn merge(a: &Secrets, b: &Secrets) -> (r: Secrets)
        requires
            a.wf(),
            b.wf(),
        ensures
            r.wf(),
            r.as_map() == merged(a.as_map(), b.as_map()),
    {
        let mut r = Secrets::new();
        let na = a.pairs.len();
        let mut i: usize = 0;
        while i < na
            invariant
                na == a@.len(),
                i <= na,
                r.wf(),
                r.as_map() == pairs_to_map(a@.take(i as int)),
            decreases na - i,
        {
            proof {
                assert(a@.take(i + 1).drop_last() =~= a@.take(i as int));
            }
            let p = &a.pairs[i];
            r.insert(p.0.clone(), p.1.clone());
            i += 1;
        }
        proof {
            assert(a@.take(na as int) =~= a@);
            lemma_merged_empty(a.as_map());
            assert(b@.take(0) =~= Seq::<(Seq<char>, Seq<char>)>::empty());
        }
        let nb = b.pairs.len();
        let mut j: usize = 0;
        while j < nb
            invariant
                nb == b@.len(),
                j <= nb,
                r.wf(),
                r.as_map() == merged(a.as_map(), pairs_to_map(b@.take(j as int))),
            decreases nb - j,
        {
            proof {
                assert(b@.take(j + 1).drop_last() =~= b@.take(j as int));
                lemma_merged_insert(a.as_map(), pairs_to_map(b@.take(j as int)), b@[j as int].0, b@[j as int].1);
            }
            let p = &b.pairs[j];
            r.insert(p.0.clone(), p.1.clone());
            j += 1;
        }
        proof {
            assert(b@.take(nb as int) =~= b@);
        }
        r
    }

    /// The rows the table shows: every key, and beside it the value when
    /// `reveal` is set, the redaction sentinel otherwise.
    pub fn displayed(&self, reveal: bool) -> (r: Vec<(String, String)>)
        ensures
            r@.len() == self@.len(),
            forall|i: int| 0 <= i < r@.len() ==> (#[trigger] r@[i]).0@ == self@[i].0
                && r@[i].1@ == spec_displayed(self@, reveal)[i].1,
    {
        let n = self.pairs.len();
        let mut r: Vec<(String, String)> = Vec::new();
        let mut i: usize = 0;
        while i < n
            invariant
                n == self@.len(),
                i <= n,
                r@.len() == i,
                forall|k: int| 0 <= k < i ==> (#[trigger] r@[k]).0@ == self@[k].0
                    && r@[k].1@ == spec_displayed(self@, reveal)[k].1,
            decreases n - i,
        {
            let p = &self.pairs[i];
            let shown = if reveal {
                p.1.clone()
            } else {
                "**redacted**".to_owned()
            };
            r.push((p.0.clone(), shown));
            i += 1;
        }
        r
    }

    /// Renders the pairs as an aligned table, one `key :: value` row each,
    /// the values withheld behind the redaction sentinel unless `reveal`
    /// is set.
    pub fn table(&self, reveal: bool) -> (r: String)
        ensures
            r@ == rendered_table(spec_displayed(self@, reveal)),
    {
        let rows = self.displayed(reveal);
        proof {
            assert(Seq::new(rows@.len(), |i: int| (rows@[i].0@, rows@[i].1@))
                =~= spec_displayed(self@, reveal));
        }
        render_rows(&rows)
    }

    /// An owned copy with the same pairs.
    pub fn duplicate(&self) -> (r: Secrets)
        ensures
            r@ == self@,
    {
        let n = self.pairs.len();
        let mut pairs: Vec<(String, String)> = Vec::new();
        let mut i: usize = 0;
        while i < n
            invariant
                n == self.pairs@.len(),
                i <= n,
                pairs@.len() == i,
                forall|k: int| 0 <= k < i ==> (#[trigger] pairs@[k]).0@ == self.pairs@[k].0@
                    && pairs@[k].1@ == self.pairs@[k].1@,
            decreases n - i,
        {
            let p = &self.pairs[i];
            pairs.push((p.0.clone(), p.1.clone()));
            i += 1;
        }
        let r = Secrets { pairs };
        proof {
            assert(r@ =~= self@);
        }
        r
    }

    /// The pairs as an owned vector, in storage order.
    pub fn as_vec(&self) -> (r: Vec<(String, String)>)
        ensures
            r@.len() == self@.len(),
            forall|i: int| 0 <= i < r@.len() ==> (#[trigger] r@[i]).0@ == self@[i].0
                && r@[i].1@ == self@[i].1,
    {
        let n = self.pairs.len();
        let mut r: Vec<(String, String)> = Vec::new();
        let mut i: usize = 0;
        while i < n
            invariant
                n == self@.len(),
                i <= n,
                r@.len() == i,
                forall|k: int| 0 <= k < i ==> (#[trigger] r@[k]).0@ == self@[k].0
                    && r@[k].1@ == self@[k].1,
            decreases n - i,
        {
            let p = &self.pairs[i];
            r.push((p.0.clone(), p.1.clone()));
            i += 1;
        }
        r
    }

    /// Builds a secret map from owned pairs, keeping their order, and fails
    /// exactly where a key occurs twice.
    pub fn from_unique_pairs(v: Vec<(String, String)>) -> (r: Option<Secrets>)
        ensures
            ({
                let vv = Seq::new(v@.len(), |i: int| (v@[i].0@, v@[i].1@));
                match r {
                    Some(s) => keys_unique(vv) && s@ == vv && s.wf(),
                    None => !keys_unique(vv),
                }
            }),
    {
        let ghost vv = Seq::new(v@.len(), |i: int| (v@[i].0@, v@[i].1@));
        let mut s = Secrets::new();
        let n = v.len();
        let mut i: usize = 0;
        while i < n
            invariant
                n == v@.len(),
                vv == Seq::new(v@.len(), |k: int| (v@[k].0@, v@[k].1@)),
                i <= n,
                s@ =~= vv.take(i as int),
                s.wf(),
            decreases n - i,
        {
            let p = &v[i];
            match s.find(p.0.as_str()) {
                Some(j) => {
                    proof {
                        assert(vv[j as int].0 == vv[i as int].0);
                        assert(!keys_unique(vv));
                    }
                    return None;
                },
                None => {},
            }
            let ghost s0 = s@;
            s.pairs.push((p.0.clone(), p.1.clone()));
            proof {
                assert(s@ =~= s0.push((p.0@, p.1@)));
                assert(s@ =~= vv.take(i + 1));
                assert forall|a: int, b: int| 0 <= a < b < s@.len()
                    implies (#[trigger] s@[a]).0 != (#[trigger] s@[b]).0 by {
                    if b == s@.len() - 1 {
                        assert(s@[a] == s0[a]);
                        assert(s0[a].0 != p.0@);
                    }
                }
            }
            i += 1;
        }
        proof {
            assert(vv.take(n as int) =~= vv);
        }
        Some(s)
    }

    /// Rebuilds a secret map from owned pairs; on a repeated key the later
    /// pair wins, as in the map the pairs describe.
    pub fn from_pairs(v: Vec<(String, String)>) -> (r: Secrets)
        ensures
            r.wf(),
            r.as_map() == pairs_to_map(
                Seq::new(v@.len(), |i: int| (v@[i].0@, v@[i].1@)),
            ),
    {
        let ghost vv = Seq::new(v@.len(), |i: int| (v@[i].0@, v@[i].1@));
        let mut r = Secrets::new();
        let n = v.len();
        let mut i: usize = 0;
        while i < n
            invariant
                n == v@.len(),
                vv == Seq::new(v@.len(), |k: int| (v@[k].0@, v@[k].1@)),
                i <= n,
                r.wf(),
                r.as_map() == pairs_to_map(vv.take(i as int)),
            decreases n - i,
        {
            proof {
                assert(vv.take(i + 1).drop_last() =~= vv.take(i as int));
            }
            let p = &v[i];
            r.insert(p.0.clone(), p.1.clone());
            i += 1;
        }
        proof {
            assert(vv.take(n as int) =~= vv);
        }
        r
    }
}

/// A single secret map applying to every profile unless shadowed.
pub struct GlobalOverrides(pub Secrets);

/// What `pairs_to_map` holds: a key is in the map exactly when some pair
/// carries it, and with unique keys each pair's value is the map's.
pub proof fn lemma_pairs_to_map_props<V>(s: Seq<(Seq<char>, V)>)
    ensures
        forall|k: Seq<char>| #[trigger] pairs_to_map(s).contains_key(k)
            <==> exists|i: int| 0 <= i < s.len() && (#[trigger] s[i]).0 == k,
        keys_unique(s) ==> forall|i: int| 0 <= i < s.len()
            ==> pairs_to_map(s).contains_key((#[trigger] s[i]).0)
                && pairs_to_map(s)[s[i].0] == s[i].1,
    decreases s.len(),
{
    if s.len() > 0 {
        let d = s.drop_last();
        lemma_pairs_to_map_props(d);
        assert forall|k: Seq<char>| #[trigger] pairs_to_map(s).contains_key(k)
            implies exists|i: int| 0 <= i < s.len() && (#[trigger] s[i]).0 == k by {
            if k == s.last().0 {
                assert(s[s.len() - 1].0 == k);
            } else {
                assert(pairs_to_map(d).contains_key(k));
                let i = choose|i: int| 0 <= i < d.len() && (#[trigger] d[i]).0 == k;
                assert(d[i] == s[i]);
                assert(s[i].0 == k);
            }
        }
        assert forall|k: Seq<char>|
            (exists|i: int| 0 <= i < s.len() && (#[trigger] s[i]).0 == k)
            implies #[trigger] pairs_to_map(s).contains_key(k) by {
            let i = choose|i: int| 0 <= i < s.len() && (#[trigger] s[i]).0 == k;
            if i < s.len() - 1 {
                assert(d[i] == s[i]);
                assert(d[i].0 == k);
                assert(pairs_to_map(d).contains_key(k));
            }
        }
        if keys_unique(s) {
            assert forall|p: int, q: int| 0 <= p < q < d.len()
                implies (#[trigger] d[p]).0 != (#[trigger] d[q]).0 by {
                assert(d[p] == s[p]);
                assert(d[q] == s[q]);
            }
            assert(keys_unique(d));
            assert forall|i: int| 0 <= i < s.len()
                implies pairs_to_map(s).contains_key((#[trigger] s[i]).0)
                    && pairs_to_map(s)[s[i].0] == s[i].1 by {
                if i < s.len() - 1 {
                    assert(d[i] == s[i]);
                    assert(pairs_to_map(d).contains_key(d[i].0)
                        && pairs_to_map(d)[d[i].0] == d[i].1);
                    assert(s[i].0 != s.last().0);
                }
            }
        }
    }
}

/// Removing the one pair that carries `k` removes `k` from the map.
pub proof fn lemma_pairs_to_map_remove<V>(s: Seq<(Seq<char>, V)>, i: int)
    requires
        keys_unique(s),
        0 <= i < s.len(),
    ensures
        pairs_to_map(s.remove(i)) == pairs_to_map(s).remove(s[i].0),
    decreases s.len(),
{
    lemma_pairs_to_map_props(s);
    lemma_pairs_to_map_props(s.remove(i));
    assert forall|j: int| 0 <= j < s.remove(i).len()
        implies (#[trigger] s.remove(i)[j]).0 != s[i].0 by {
        if j < i {
            assert(s.remove(i)[j] == s[j]);
        } else {
            assert(s.remove(i)[j] == s[j + 1]);
        }
    }
    assert forall|k: Seq<char>| true implies
        #[trigger] pairs_to_map(s.remove(i)).contains_key(k)
            == pairs_to_map(s).remove(s[i].0).contains_key(k)
        && (pairs_to_map(s.remove(i)).contains_key(k)
            ==> pairs_to_map(s.remove(i))[k] == pairs_to_map(s).remove(s[i].0)[k]) by {
        if pairs_to_map(s.remove(i)).contains_key(k) {
            let j = choose|j: int| 0 <= j < s.remove(i).len()
                && (#[trigger] s.remove(i)[j]).0 == k;
            let j2: int = if j < i { j } else { j + 1 };
            assert(s.remove(i)[j] == s[j2]);
            assert(keys_unique(s.remove(i)));
            assert(pairs_to_map(s.remove(i))[k] == s.remove(i)[j].1);
            assert(pairs_to_map(s)[k] == s[j2].1);
        }
        if pairs_to_map(s).remove(s[i].0).contains_key(k) {
            let j2 = choose|j2: int| 0 <= j2 < s.len() && (#[trigger] s[j2]).0 == k;
            let j: int = if j2 < i { j2 } else { j2 - 1 };
            assert(j2 != i);
            assert(s.remove(i)[j] == s[j2]);
        }
    }
    assert(pairs_to_map(s.remove(i)) =~= pairs_to_map(s).remove(s[i].0));
}

/// Uniqueness survives removing a key's pair and appending that key anew.
pub proof fn lemma_keys_unique_remove_push<V>(
    s: Seq<(Seq<char>, V)>,
    i: int,
    k: Seq<char>,
    v: V,
)
    requires
        keys_unique(s),
        0 <= i < s.len(),
        s[i].0 == k,
    ensures
        keys_unique(s.remove(i).push((k, v))),
        pairs_to_map(s.remove(i).push((k, v))) == pairs_to_map(s).insert(k, v),
{
    lemma_pairs_to_map_remove(s, i);
    let t = s.remove(i).push((k, v));
    assert forall|p: int, q: int| 0 <= p < q < t.len()
        implies (#[trigger] t[p]).0 != (#[trigger] t[q]).0 by {
        if q == t.len() - 1 {
            let p2: int = if p < i { p } else { p + 1 };
            assert(t[p] == s[p2]);
            assert(s[p2].0 != s[i].0 || p2 == i);
        } else {
            let p2: int = if p < i { p } else { p + 1 };
            let q2: int = if q < i { q } else { q + 1 };
            assert(t[p] == s[p2] && t[q] == s[q2]);
        }
    }
    assert(t.drop_last() =~= s.remove(i));
    assert(pairs_to_map(t) =~= pairs_to_map(s).insert(k, v));
}

/// Merging with an empty overlay changes nothing.
proof fn lemma_merged_empty(m: Map<Seq<char>, Seq<char>>)
    ensures
        merged(m, Map::<Seq<char>, Seq<char>>::empty()) == m,
{
    assert(merged(m, Map::<Seq<char>, Seq<char>>::empty()) =~= m);
}

/// Inserting into the overlay is inserting into the merge.
proof fn lemma_merged_insert(
    a: Map<Seq<char>, Seq<char>>,
    b: Map<Seq<char>, Seq<char>>,
    k: Seq<char>,
    v: Seq<char>,
)
    ensures
        merged(a, b.insert(k, v)) == merged(a, b).insert(k, v),
{
    assert(merged(a, b.insert(k, v)) =~= merged(a, b).insert(k, v));
}

/// The precedence rule of the merge: a key of the overlay keeps the
/// overlay's value; a key only of the base keeps the base's; no other key
/// appears.
pub proof fn lemma_merge_precedence(
    base: Map<Seq<char>, Seq<char>>,
    overlay: Map<Seq<char>, Seq<char>>,
    k: Seq<char>,
)
    ensures
        overlay.contains_key(k) ==> merged(base, overlay).contains_key(k)
            && merged(base, overlay)[k] == overlay[k],
        !overlay.contains_key(k) && base.contains_key(k)
            ==> merged(base, overlay).contains_key(k)
                && merged(base, overlay)[k] == base[k],
        merged(base, overlay).contains_key(k)
            <==> base.contains_key(k) || overlay.contains_key(k),
{
}

} // verus!
