//! The frontmost application, as the key-mapping layers see it, and the
//! list of running applications offered for a layer.

use vstd::prelude::*;
use crate::loopback::lowercase;
use crate::text::str_equal;

verus! {

/// A recognisable application: `bundle_id` is the matching key, `name` is for
/// display only.
#[derive(Debug, Clone, PartialEq, Eq)]
pub struct FrontApp {
    pub bundle_id: String,
    pub name: String,
}

/// Describes a running application from what the system reports about it. A
/// process without a bundle id cannot key a layer, so it counts as "no
/// frontmost application"; a missing display name falls back to the bundle id.
pub fn describe(bundle_id: Option<&str>, localized_name: Option<&str>) -> (r: Option<FrontApp>)
    ensures
        match bundle_id {
            None => r is None,
            Some(b) => r matches Some(app) && app.bundle_id@ == b@ && app.name@ == match localized_name {
                Some(n) => n@,
                None => b@,
            },
        },
{
    let bundle_id = match bundle_id {
        Some(b) => b,
        None => return None,
    };
    let name = match localized_name {
        Some(n) => n.to_string(),
        None => bundle_id.to_string(),
    };
    Some(FrontApp { bundle_id: bundle_id.to_string(), name })
}


fn copy_app(a: &FrontApp) -> (c: FrontApp)
    ensures
        c == *a,
{
    FrontApp { bundle_id: a.bundle_id.clone(), name: a.name.clone() }
}

fn copy_opt(a: &Option<FrontApp>) -> (c: Option<FrontApp>)
    ensures
        c == *a,
{
    match a {
        Some(app) => Some(copy_app(app)),
        None => None,
    }
}

pub open spec fn bundle_of(a: Option<FrontApp>) -> Option<Seq<char>> {
    match a {
        Some(app) => Some(app.bundle_id@),
        None => None,
    }
}

/// What the application knows about the foreground: the real frontmost
/// application (possibly this program itself), which resolves the key
/// mapping, and the most recent frontmost application other than this
/// program, which "add the current application" refers to.
pub struct FrontState {
    pub active: Option<FrontApp>,
    pub recent: Option<FrontApp>,
}

impl FrontState {
    pub fn new() -> (r: Self)
        ensures
            r.active is None,
            r.recent is None,
    {
        FrontState { active: None, recent: None }
    }

    /// Records that `app` is now frontmost. `own_id` is this program's bundle
    /// id. Returns whether the frontmost application changed (by bundle id)
    /// and, when `app` is another program, that program as the new recent one.
    pub fn observe(&mut self, app: Option<FrontApp>, own_id: &str) -> (r: (bool, Option<FrontApp>))
        ensures
            r.0 == (bundle_of(old(self).active) != bundle_of(app)),
            final(self).active == app,
            match app {
                Some(a) if a.bundle_id@ != own_id@ => final(self).recent == app && r.1 == app,
                _ => final(self).recent == old(self).recent && r.1 is None,
            },
            // The recent application is never this program itself.
            (old(self).recent matches Some(a) ==> a.bundle_id@ != own_id@) ==> (final(self).recent matches Some(a)
                ==> a.bundle_id@ != own_id@),
    {
        let switched = match (&self.active, &app) {
            (Some(old_app), Some(new_app)) => !str_equal(
                old_app.bundle_id.as_str(),
                new_app.bundle_id.as_str(),
            ),
            (None, None) => false,
            _ => true,
        };
        self.active = copy_opt(&app);
        let recent = match app {
            Some(a) => {
                if !str_equal(a.bundle_id.as_str(), own_id) {
                    self.recent = Some(copy_app(&a));
                    Some(a)
                } else {
                    None
                }
            },
            None => None,
        };
        (switched, recent)
    }
}

impl Default for FrontState {
    fn default() -> (r: Self)
        ensures
            r.active is None,
            r.recent is None,
    {
        FrontState::new()
    }
}

/// Lexicographic order of character sequences (by code point). On strings
/// this is the order of `String`'s `Ord`: UTF-8 keeps code point order.
pub open spec fn lex_le(a: Seq<char>, b: Seq<char>) -> bool {
    a.is_prefix_of(b) || exists|k: int|
        0 <= k < a.len() && k < b.len() && a.take(k) == b.take(k) && (a[k] as u32) < (
        #[trigger] b[k] as u32)
}

fn lex_le_exec(a: &str, b: &str) -> (r: bool)
    ensures
        r == lex_le(a@, b@),
{
    let n = a.unicode_len();
    let m = b.unicode_len();
    let mut i: usize = 0;
    while i < n && i < m
        invariant
            n == a@.len(),
            m == b@.len(),
            i <= n,
            i <= m,
            a@.take(i as int) == b@.take(i as int),
        decreases n - i,
    {
        let c = a.get_char(i);
        let d = b.get_char(i);
        if c != d {
            if (c as u32) < (d as u32) {
                assert(a@.take(i as int) == b@.take(i as int));
                return true;
            } else {
                proof {
                    assert(!a@.is_prefix_of(b@)) by {
                        assert(a@[i as int] != b@[i as int]);
                    }
                    assert forall|k: int|
                        0 <= k < a@.len() && k < b@.len() && a@.take(k) == b@.take(k) implies !((
                    a@[k] as u32) < (#[trigger] b@[k] as u32)) by {
                        if k < i {
                            assert(a@.take(i as int)[k] == b@.take(i as int)[k]);
                        } else if k > i {
                            assert(a@.take(k)[i as int] == b@.take(k)[i as int]);
                        }
                    }
                }
                return false;
            }
        }
        assert(a@.take(i + 1) =~= a@.take(i as int).push(c));
        assert(b@.take(i + 1) =~= b@.take(i as int).push(d));
        i = i + 1;
    }
    if i == n {
        assert(a@.is_prefix_of(b@)) by {
            assert(a@ =~= a@.take(i as int));
            assert forall|k: int| 0 <= k < a@.len() implies a@[k] == b@[k] by {
                assert(a@.take(i as int)[k] == b@.take(i as int)[k]);
            }
        }
        true
    } else {
        proof {
            assert(!a@.is_prefix_of(b@));
            assert forall|k: int|
                0 <= k < a@.len() && k < b@.len() && a@.take(k) == b@.take(k) implies !((
            a@[k] as u32) < (#[trigger] b@[k] as u32)) by {
                assert(a@.take(i as int)[k] == b@.take(i as int)[k]);
            }
        }
        false
    }
}

/// Running applications are listed by lower-cased display name.
pub open spec fn name_key(a: FrontApp) -> Seq<char> {
    lowercase(a.name@)
}

/// `x` inserted into `s` after every entry whose key is not above its own
/// (one step of a stable insertion sort by key).
pub open spec fn insert_keyed(s: Seq<(Seq<char>, FrontApp)>, x: (Seq<char>, FrontApp)) -> Seq<
    (Seq<char>, FrontApp),
>
    decreases s.len(),
{
    if s.len() == 0 {
        seq![x]
    } else if lex_le(s.last().0, x.0) {
        s.push(x)
    } else {
        insert_keyed(s.drop_last(), x).push(s.last())
    }
}

/// `s` stably sorted by key.
pub open spec fn sort_keyed(s: Seq<(Seq<char>, FrontApp)>) -> Seq<(Seq<char>, FrontApp)>
    decreases s.len(),
{
    if s.len() == 0 {
        s
    } else {
        insert_keyed(sort_keyed(s.drop_last()), s.last())
    }
}

pub open spec fn apps_of(s: Seq<(Seq<char>, FrontApp)>) -> Seq<FrontApp> {
    s.map_values(|p: (Seq<char>, FrontApp)| p.1)
}

/// Each application paired with the key at the same position.
pub open spec fn keyed(keys: Seq<Seq<char>>, apps: Seq<FrontApp>) -> Seq<(Seq<char>, FrontApp)> {
    Seq::new(apps.len(), |i: int| (keys[i], apps[i]))
}

/// Each application paired with its lower-cased display name.
pub open spec fn keyed_by_name(apps: Seq<FrontApp>) -> Seq<(Seq<char>, FrontApp)> {
    apps.map_values(|a: FrontApp| (name_key(a), a))
}

pub open spec fn keys_view(keys: Seq<String>) -> Seq<Seq<char>> {
    keys.map_values(|k: String| k@)
}

/// `s` with every element dropped whose bundle id equals that of the element
/// kept just before it.
pub open spec fn dedup_bundles(s: Seq<FrontApp>) -> Seq<FrontApp>
    decreases s.len(),
{
    if s.len() == 0 {
        s
    } else {
        let d = dedup_bundles(s.drop_last());
        if d.len() > 0 && d.last().bundle_id@ == s.last().bundle_id@ {
            d
        } else {
            d.push(s.last())
        }
    }
}

proof fn lemma_insert_at(s: Seq<(Seq<char>, FrontApp)>, x: (Seq<char>, FrontApp), p: int)
    requires
        0 <= p <= s.len(),
        forall|j: int| p <= j < s.len() ==> !lex_le((#[trigger] s[j]).0, x.0),
        p > 0 ==> lex_le(s[p - 1].0, x.0),
    ensures
        insert_keyed(s, x) == s.take(p).push(x) + s.skip(p),
    decreases s.len(),
{
    if s.len() == 0 {
        assert(s.take(p).push(x) + s.skip(p) =~= seq![x]);
    } else if lex_le(s.last().0, x.0) {
        assert(p == s.len());
        assert(s.take(p).push(x) + s.skip(p) =~= s.push(x));
    } else {
        let t = s.drop_last();
        assert(p < s.len());
        assert forall|j: int| p <= j < t.len() implies !lex_le((#[trigger] t[j]).0, x.0) by {
            assert(t[j] == s[j]);
        }
        if p > 0 {
            assert(t[p - 1] == s[p - 1]);
        }
        lemma_insert_at(t, x, p);
        assert(t.take(p).push(x) + t.skip(p) + seq![s.last()] =~= s.take(p).push(x) + s.skip(p));
    }
}

/// The listing with the sort keys given (one per application, at the same
/// position): stably sorted by key, then one of each run of neighbours with
/// the same bundle id kept.
pub fn order_by_keys(apps: Vec<FrontApp>, keys: Vec<String>) -> (r: Vec<FrontApp>)
    requires
        keys@.len() == apps@.len(),
    ensures
        r@ == dedup_bundles(apps_of(sort_keyed(keyed(keys_view(keys@), apps@)))),
{
    let ghost all = keyed(keys_view(keys@), apps@);
    let mut rest = apps;
    let mut rest_keys = keys;
    let mut sorted: Vec<FrontApp> = Vec::new();
    let mut skeys: Vec<String> = Vec::new();
    let n = rest.len();
    let mut i: usize = 0;
    while i < n
        invariant
            n == all.len(),
            i <= n,
            rest@.len() == n - i,
            rest_keys@.len() == n - i,
            forall|j: int| 0 <= j < n - i ==> (#[trigger] keyed(keys_view(rest_keys@), rest@)[j]) == all[i + j],
            skeys@.len() == sorted@.len(),
            keyed(keys_view(skeys@), sorted@) == sort_keyed(all.take(i as int)),
        decreases n - i,
    {
        let ghost r0 = rest@;
        let ghost k0 = rest_keys@;
        let x = rest.remove(0);
        let kx = rest_keys.remove(0);
        proof {
            assert(keyed(keys_view(k0), r0)[0] == all[i as int]);
            assert((kx@, x) == all[i as int]);
            assert forall|j: int| 0 <= j < n - (i + 1) implies (#[trigger] keyed(keys_view(rest_keys@), rest@)[j])
                == all[i + 1 + j] by {
                assert(keyed(keys_view(k0), r0)[j + 1] == all[i + (j + 1)]);
                assert(rest@[j] == r0[j + 1] && rest_keys@[j] == k0[j + 1]);
            }
            assert(all.take(i + 1).drop_last() =~= all.take(i as int));
            assert(all.take(i + 1).last() == all[i as int]);
        }
        let ghost sk = keyed(keys_view(skeys@), sorted@);
        let mut p = sorted.len();
        while p > 0 && !lex_le_exec(skeys[p - 1].as_str(), kx.as_str())
            invariant
                p <= sorted@.len(),
                skeys@.len() == sorted@.len(),
                sk == keyed(keys_view(skeys@), sorted@),
                forall|j: int| p <= j < sorted@.len() ==> !lex_le((#[trigger] sk[j]).0, kx@),
            decreases p,
        {
            assert(sk[p - 1].0 == skeys@[p - 1]@);
            p = p - 1;
        }
        proof {
            if p > 0 {
                assert(sk[p - 1].0 == skeys@[p - 1]@);
            }
            lemma_insert_at(sk, (kx@, x), p as int);
        }
        let ghost s0 = sorted@;
        let ghost q0 = skeys@;
        sorted.insert(p, x);
        skeys.insert(p, kx);
        proof {
            assert(keyed(keys_view(skeys@), sorted@) =~= sk.take(p as int).push((kx@, x)) + sk.skip(p as int)) by {
                assert forall|j: int| 0 <= j < sorted@.len() implies #[trigger] keyed(keys_view(skeys@), sorted@)[j]
                    == (sk.take(p as int).push((kx@, x)) + sk.skip(p as int))[j] by {
                    if j < p {
                        assert(sorted@[j] == s0[j] && skeys@[j] == q0[j]);
                    } else if j > p {
                        assert(sorted@[j] == s0[j - 1] && skeys@[j] == q0[j - 1]);
                    }
                }
            }
        }
        i = i + 1;
    }
    assert(all.take(n as int) =~= all);
    let ghost srt = sorted@;
    assert(apps_of(sort_keyed(all)) =~= srt);
    let mut out: Vec<FrontApp> = Vec::new();
    let m = sorted.len();
    let mut i: usize = 0;
    while i < m
        invariant
            m == srt.len(),
            i <= m,
            sorted@ == srt.skip(i as int),
            out@ == dedup_bundles(srt.take(i as int)),
        decreases m - i,
    {
        assert(sorted@.len() > 0);
        let a = sorted.remove(0);
        proof {
            assert(srt.skip(i as int)[0] == srt[i as int]);
            assert(sorted@ =~= srt.skip(i + 1));
            assert(srt.take(i + 1).drop_last() =~= srt.take(i as int));
        }
        let dup = out.len() > 0 && str_equal(out[out.len() - 1].bundle_id.as_str(), a.bundle_id.as_str());
        if !dup {
            out.push(a);
        }
        i = i + 1;
    }
    assert(srt.take(m as int) =~= srt);
    out
}

/// Orders the running applications for display: stably by lower-cased
/// display name, then keeps one of each run of neighbours with the same
/// bundle id.
pub fn order_running_apps(apps: Vec<FrontApp>) -> (r: Vec<FrontApp>)
    ensures
        r@ == dedup_bundles(apps_of(sort_keyed(keyed_by_name(apps@)))),
{
    let mut keys: Vec<String> = Vec::new();
    let mut i: usize = 0;
    while i < apps.len()
        invariant
            i <= apps@.len(),
            keys@.len() == i,
            forall|j: int| 0 <= j < i ==> (#[trigger] keys@[j])@ == name_key(apps@[j]),
        decreases apps@.len() - i,
    {
        keys.push(crate::loopback::to_lowercase(apps[i].name.as_str()));
        i = i + 1;
    }
    assert(keyed(keys_view(keys@), apps@) =~= keyed_by_name(apps@));
    order_by_keys(apps, keys)
}

/// In the listed applications no two neighbours share a bundle id.
pub proof fn law_running_apps_have_no_adjacent_duplicates(apps: Seq<FrontApp>)
    ensures
        forall|i: int|
            0 <= i < dedup_bundles(apps).len() - 1 ==> (#[trigger] dedup_bundles(apps)[i]).bundle_id@
                != dedup_bundles(apps)[i + 1].bundle_id@,
    decreases apps.len(),
{
    if apps.len() > 0 {
        law_running_apps_have_no_adjacent_duplicates(apps.drop_last());
        let d = dedup_bundles(apps.drop_last());
        if !(d.len() > 0 && d.last().bundle_id@ == apps.last().bundle_id@) {
            let r = d.push(apps.last());
            assert forall|i: int| 0 <= i < r.len() - 1 implies (#[trigger] r[i]).bundle_id@ != r[i + 1].bundle_id@ by {
                if i < d.len() - 1 {
                    assert(r[i] == d[i] && r[i + 1] == d[i + 1]);
                }
            }
        }
    }
}

proof fn lemma_lex_unfold(a: Seq<char>, b: Seq<char>)
    ensures
        a.len() == 0 ==> lex_le(a, b),
        a.len() > 0 && b.len() == 0 ==> !lex_le(a, b),
        a.len() > 0 && b.len() > 0 ==> (lex_le(a, b) == ((a[0] as u32) < (b[0] as u32) || (a[0] == b[0]
            && lex_le(a.drop_first(), b.drop_first())))),
{
    if a.len() == 0 {
        assert(a.is_prefix_of(b));
    }
    if a.len() > 0 && b.len() > 0 {
        let a1 = a.drop_first();
        let b1 = b.drop_first();
        if lex_le(a, b) {
            if a.is_prefix_of(b) {
                assert(a[0] == b[0]);
                assert(a1.is_prefix_of(b1)) by {
                    assert forall|j: int| 0 <= j < a1.len() implies #[trigger] a1[j] == b1[j] by {
                        assert(a[j + 1] == b[j + 1]);
                    }
                }
            } else {
                let k = choose|k: int|
                    0 <= k < a.len() && k < b.len() && a.take(k) == b.take(k) && (a[k] as u32) < (
                    #[trigger] b[k] as u32);
                if k > 0 {
                    assert(a.take(k)[0] == b.take(k)[0]);
                    assert(a1.take(k - 1) =~= b1.take(k - 1)) by {
                        assert forall|j: int| 0 <= j < k - 1 implies #[trigger] a1.take(k - 1)[j] == b1.take(k - 1)[j] by {
                            assert(a.take(k)[j + 1] == b.take(k)[j + 1]);
                        }
                    }
                    assert(b1[k - 1] == b[k]);
                    assert(a1[k - 1] == a[k]);
                    assert(lex_le(a1, b1));
                }
            }
        }
        if (a[0] as u32) < (b[0] as u32) {
            assert(a.take(0) =~= b.take(0));
            assert(lex_le(a, b));
        } else if a[0] == b[0] && lex_le(a1, b1) {
            if a1.is_prefix_of(b1) {
                assert(a.is_prefix_of(b)) by {
                    assert forall|j: int| 0 <= j < a.len() implies #[trigger] a[j] == b[j] by {
                        if j > 0 {
                            assert(a1[j - 1] == b1[j - 1]);
                        }
                    }
                }
            } else {
                let k = choose|k: int|
                    0 <= k < a1.len() && k < b1.len() && a1.take(k) == b1.take(k) && (a1[k] as u32) < (
                    #[trigger] b1[k] as u32);
                assert(a.take(k + 1) =~= b.take(k + 1)) by {
                    assert forall|j: int| 0 <= j < k + 1 implies #[trigger] a.take(k + 1)[j] == b.take(k + 1)[j] by {
                        if j > 0 {
                            assert(a1.take(k)[j - 1] == b1.take(k)[j - 1]);
                        }
                    }
                }
                assert(a[k + 1] == a1[k] && b[k + 1] == b1[k]);
                assert(lex_le(a, b));
            }
        }
    }
}

proof fn lemma_lex_total(a: Seq<char>, b: Seq<char>)
    ensures
        lex_le(a, b) || lex_le(b, a),
    decreases a.len(),
{
    lemma_lex_unfold(a, b);
    lemma_lex_unfold(b, a);
    if a.len() > 0 && b.len() > 0 {
        if a[0] != b[0] {
            vstd::utf8::char_u32_cast(a[0], a[0] as u32);
            vstd::utf8::char_u32_cast(b[0], b[0] as u32);
            assert((a[0] as u32) != (b[0] as u32));
        }
        lemma_lex_total(a.drop_first(), b.drop_first());
    }
}

proof fn lemma_lex_trans(a: Seq<char>, b: Seq<char>, c: Seq<char>)
    requires
        lex_le(a, b),
        lex_le(b, c),
    ensures
        lex_le(a, c),
    decreases a.len(),
{
    lemma_lex_unfold(a, b);
    lemma_lex_unfold(b, c);
    lemma_lex_unfold(a, c);
    if a.len() > 0 && b.len() > 0 && c.len() > 0 {
        if a[0] == b[0] && b[0] == c[0] {
            lemma_lex_trans(a.drop_first(), b.drop_first(), c.drop_first());
        }
    }
}

/// Every pair of entries is in order of lower-cased display name.
pub open spec fn sorted_by_name(s: Seq<FrontApp>) -> bool {
    forall|i: int, j: int| 0 <= i < j < s.len() ==> lex_le(name_key(#[trigger] s[i]), name_key(#[trigger] s[j]))
}

/// Every pair of entries is in order of key.
pub open spec fn sorted_keyed(s: Seq<(Seq<char>, FrontApp)>) -> bool {
    forall|i: int, j: int| 0 <= i < j < s.len() ==> lex_le((#[trigger] s[i]).0, (#[trigger] s[j]).0)
}

proof fn lemma_insert_members(s: Seq<(Seq<char>, FrontApp)>, x: (Seq<char>, FrontApp))
    ensures
        insert_keyed(s, x).len() == s.len() + 1,
        forall|k: int| 0 <= k < insert_keyed(s, x).len() ==> (#[trigger] insert_keyed(s, x)[k] == x
            || s.contains(insert_keyed(s, x)[k])),
    decreases s.len(),
{
    if s.len() > 0 && !lex_le(s.last().0, x.0) {
        let t = s.drop_last();
        lemma_insert_members(t, x);
        let r = insert_keyed(t, x).push(s.last());
        assert forall|k: int| 0 <= k < r.len() implies (#[trigger] r[k] == x || s.contains(r[k])) by {
            if k == r.len() - 1 {
                assert(s[s.len() - 1] == r[k]);
            } else {
                assert(r[k] == insert_keyed(t, x)[k]);
                if r[k] != x {
                    let j = choose|j: int| 0 <= j < t.len() && t[j] == r[k];
                    assert(s[j] == r[k]);
                }
            }
        }
    } else if s.len() > 0 {
        let r = s.push(x);
        assert forall|k: int| 0 <= k < r.len() implies (#[trigger] r[k] == x || s.contains(r[k])) by {
            if k < s.len() {
                assert(s[k] == r[k]);
            }
        }
    }
}

proof fn lemma_sort_members(s: Seq<(Seq<char>, FrontApp)>)
    ensures
        sort_keyed(s).len() == s.len(),
        forall|k: int| 0 <= k < sort_keyed(s).len() ==> s.contains(#[trigger] sort_keyed(s)[k]),
    decreases s.len(),
{
    if s.len() > 0 {
        let t = s.drop_last();
        lemma_sort_members(t);
        lemma_insert_members(sort_keyed(t), s.last());
        assert forall|k: int| 0 <= k < sort_keyed(s).len() implies s.contains(#[trigger] sort_keyed(s)[k]) by {
            let e = sort_keyed(s)[k];
            if e == s.last() {
                assert(s[s.len() - 1] == e);
            } else {
                let j = choose|j: int| 0 <= j < sort_keyed(t).len() && sort_keyed(t)[j] == e;
                let i2 = choose|i2: int| 0 <= i2 < t.len() && t[i2] == sort_keyed(t)[j];
                assert(s[i2] == e);
            }
        }
    }
}

proof fn lemma_insert_sorted(s: Seq<(Seq<char>, FrontApp)>, x: (Seq<char>, FrontApp))
    requires
        sorted_keyed(s),
    ensures
        sorted_keyed(insert_keyed(s, x)),
    decreases s.len(),
{
    if s.len() == 0 {
    } else if lex_le(s.last().0, x.0) {
        let r = s.push(x);
        assert forall|i: int, j: int| 0 <= i < j < r.len() implies lex_le((#[trigger] r[i]).0, (#[trigger] r[j]).0) by {
            if j == s.len() {
                if i < s.len() - 1 {
                    lemma_lex_trans(s[i].0, s.last().0, x.0);
                }
            } else {
                assert(r[i] == s[i] && r[j] == s[j]);
            }
        }
    } else {
        let t = s.drop_last();
        assert(sorted_keyed(t)) by {
            assert forall|i: int, j: int| 0 <= i < j < t.len() implies lex_le((#[trigger] t[i]).0, (#[trigger] t[j]).0) by {
                assert(t[i] == s[i] && t[j] == s[j]);
            }
        }
        lemma_insert_sorted(t, x);
        lemma_insert_members(t, x);
        lemma_lex_total(s.last().0, x.0);
        let u = insert_keyed(t, x);
        let r = u.push(s.last());
        assert forall|i: int, j: int| 0 <= i < j < r.len() implies lex_le((#[trigger] r[i]).0, (#[trigger] r[j]).0) by {
            if j == u.len() {
                assert(r[i] == u[i]);
                if u[i] != x {
                    let k = choose|k: int| 0 <= k < t.len() && t[k] == u[i];
                    assert(s[k] == u[i]);
                    assert(lex_le(s[k].0, s[s.len() - 1].0));
                }
            } else {
                assert(r[i] == u[i] && r[j] == u[j]);
            }
        }
    }
}

proof fn lemma_sort_sorted(s: Seq<(Seq<char>, FrontApp)>)
    ensures
        sorted_keyed(sort_keyed(s)),
    decreases s.len(),
{
    if s.len() > 0 {
        lemma_sort_sorted(s.drop_last());
        lemma_insert_sorted(sort_keyed(s.drop_last()), s.last());
    }
}

proof fn lemma_dedup_members(s: Seq<FrontApp>)
    ensures
        forall|k: int| 0 <= k < dedup_bundles(s).len() ==> s.contains(#[trigger] dedup_bundles(s)[k]),
    decreases s.len(),
{
    if s.len() > 0 {
        let t = s.drop_last();
        lemma_dedup_members(t);
        let d = dedup_bundles(t);
        assert forall|k: int| 0 <= k < dedup_bundles(s).len() implies s.contains(#[trigger] dedup_bundles(s)[k]) by {
            if k < d.len() {
                assert(dedup_bundles(s)[k] == d[k]);
                let j = choose|j: int| 0 <= j < t.len() && t[j] == d[k];
                assert(s[j] == d[k]);
            } else {
                assert(s[s.len() - 1] == dedup_bundles(s)[k]);
            }
        }
    }
}

proof fn lemma_dedup_sorted(s: Seq<FrontApp>)
    requires
        sorted_by_name(s),
    ensures
        sorted_by_name(dedup_bundles(s)),
    decreases s.len(),
{
    if s.len() > 0 {
        let t = s.drop_last();
        assert(sorted_by_name(t)) by {
            assert forall|i: int, j: int| 0 <= i < j < t.len() implies lex_le(name_key(#[trigger] t[i]), name_key(#[trigger] t[j])) by {
                assert(t[i] == s[i] && t[j] == s[j]);
            }
        }
        lemma_dedup_sorted(t);
        lemma_dedup_members(t);
        let d = dedup_bundles(t);
        if !(d.len() > 0 && d.last().bundle_id@ == s.last().bundle_id@) {
            let r = d.push(s.last());
            assert forall|i: int, j: int| 0 <= i < j < r.len() implies lex_le(name_key(#[trigger] r[i]), name_key(#[trigger] r[j])) by {
                if j == d.len() {
                    assert(r[i] == d[i]);
                    let k = choose|k: int| 0 <= k < t.len() && t[k] == d[i];
                    assert(s[k] == d[i]);
                    assert(lex_le(name_key(s[k]), name_key(s[s.len() - 1])));
                } else {
                    assert(r[i] == d[i] && r[j] == d[j]);
                }
            }
        }
    }
}

/// The listed applications are in order of lower-cased display name.
pub proof fn law_running_apps_are_sorted_by_name(apps: Seq<FrontApp>)
    ensures
        sorted_by_name(dedup_bundles(apps_of(sort_keyed(keyed_by_name(apps))))),
{
    let t = sort_keyed(keyed_by_name(apps));
    lemma_sort_sorted(keyed_by_name(apps));
    lemma_sort_members(keyed_by_name(apps));
    let a = apps_of(t);
    assert(sorted_by_name(a)) by {
        assert forall|i: int, j: int| 0 <= i < j < a.len() implies lex_le(name_key(#[trigger] a[i]), name_key(#[trigger] a[j])) by {
            let ki = choose|k: int| 0 <= k < keyed_by_name(apps).len() && keyed_by_name(apps)[k] == t[i];
            let kj = choose|k: int| 0 <= k < keyed_by_name(apps).len() && keyed_by_name(apps)[k] == t[j];
            assert(t[i].0 == name_key(t[i].1));
            assert(t[j].0 == name_key(t[j].1));
        }
    }
    lemma_dedup_sorted(a);
}

} // verus!
