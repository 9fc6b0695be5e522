//! Governance policy projections: repo-relative fingerprints of policy
//! sources, their ordering, the ceremony source manifest, and the drafts
//! that a preview form edits.

use vstd::prelude::*;
use crate::lql::{join, string_views};
use crate::text::{
    chars_of, debug_str, nonempty_trimmed, str_debug, owned, push_char, split_on, trim,
};

verus! {

/// Schema marker of policy engine state snapshots.
pub const POLICY_ENGINE_STATE_SNAPSHOT_SCHEMA: &'static str =
    "larql.governance.policy_engine_state_snapshot.v1";

/// Slash-normalized prefix of policy source fingerprints.
pub const POLICY_REPO_FINGERPRINT_PREFIX: &'static str = "governance/policies";

/// Schema marker of ceremony/debt snapshots.
pub const CEREMONY_DEBT_STATE_SNAPSHOT_SCHEMA: &'static str =
    "larql.governance.ceremony_debt_state_snapshot.v1";

/// Schema marker of policy eval previews.
pub const POLICY_EVAL_PREVIEW_SCHEMA: &'static str = "larql.governance.policy_eval_preview.v1";

/// Errors of snapshot building that this library reports.
#[derive(Debug)]
pub enum SnapshotError {
    /// A fingerprint path is empty or leaves the repository.
    InvalidFingerprint(String),
    /// A preview draft cannot be turned into policy input.
    Draft(String),
}

/// Identity of one policy source: its repo-relative path and the SHA-256
/// of its bytes.
#[derive(Debug, Clone)]
pub struct PolicySourceFingerprint {
    pub repo_relative_path: String,
    pub content_sha256: String,
}

/// `s` holds two dots in a row.
pub open spec fn has_double_dot(s: Seq<char>) -> bool {
    exists|i: int| 0 <= i < s.len() - 1 && s[i] == '.' && #[trigger] s[i + 1] == '.'
}

/// `s` holds the character `c`.
pub open spec fn has_char(s: Seq<char>, c: char) -> bool {
    exists|i: int| 0 <= i < s.len() && #[trigger] s[i] == c
}

/// A path piece that could leave the repository: it climbs (`..`), is
/// absolute (leading `/` or `\`), or names a drive or scheme (`:`).
pub open spec fn unsafe_piece(s: Seq<char>) -> bool {
    has_double_dot(s) || (s.len() > 0 && (s[0] == '/' || s[0] == '\\')) || has_char(s, ':')
}

/// The message for an empty piece.
pub open spec fn empty_piece_message() -> Seq<char> {
    "path piece must not be empty"@
}

/// The message for an unsafe piece.
pub open spec fn unsafe_piece_message(s: Seq<char>) -> Seq<char> {
    "unsafe repo-relative fingerprint piece: "@ + str_debug(s)
}

/// Checks that `piece` is a non-empty path that stays inside the
/// repository.
pub fn assert_safe_piece(piece: &str) -> (r: Result<(), SnapshotError>)
    ensures
        piece@.len() == 0 ==> (r matches Err(SnapshotError::InvalidFingerprint(m)) && m@
            == empty_piece_message()),
        piece@.len() > 0 && unsafe_piece(piece@) ==> (r matches Err(
            SnapshotError::InvalidFingerprint(m),
        ) && m@ == unsafe_piece_message(piece@)),
        piece@.len() > 0 && !unsafe_piece(piece@) ==> r is Ok,
{
    let cs = chars_of(piece);
    if cs.len() == 0 {
        return Err(SnapshotError::InvalidFingerprint(owned("path piece must not be empty")));
    }
    let mut bad = cs[0] == '/' || cs[0] == '\\';
    let mut i: usize = 0;
    while i < cs.len()
        invariant
            i <= cs.len(),
            cs@ == piece@,
            cs.len() > 0,
            bad == ((cs@[0] == '/' || cs@[0] == '\\') || (exists|j: int|
                0 <= j < i && j < cs.len() - 1 && cs@[j] == '.' && #[trigger] cs@[j + 1] == '.')
                || (exists|j: int| 0 <= j < i && #[trigger] cs@[j] == ':')),
        decreases cs.len() - i,
    {
        if cs[i] == ':' {
            bad = true;
        }
        if i + 1 < cs.len() && cs[i] == '.' && cs[i + 1] == '.' {
            bad = true;
        }
        i = i + 1;
    }
    if bad {
        let mut m = owned("unsafe repo-relative fingerprint piece: ");
        let d = debug_str(piece);
        m.append(d.as_str());
        return Err(SnapshotError::InvalidFingerprint(m));
    }
    Ok(())
}

/// `s` with every backslash turned into a slash.
pub open spec fn slashes(s: Seq<char>) -> Seq<char> {
    s.map_values(|c: char|
        if c == '\\' {
            '/'
        } else {
            c
        })
}

/// The fingerprint path of a policy include: `governance/policies/` and the
/// include with slashes for backslashes, after `assert_safe_piece`.
pub fn fingerprint_under_policies(include_style_path: &str) -> (r: Result<String, SnapshotError>)
    ensures
        include_style_path@.len() == 0 ==> (r matches Err(SnapshotError::InvalidFingerprint(m))
            && m@ == empty_piece_message()),
        include_style_path@.len() > 0 && unsafe_piece(include_style_path@) ==> (r matches Err(
            SnapshotError::InvalidFingerprint(m),
        ) && m@ == unsafe_piece_message(include_style_path@)),
        include_style_path@.len() > 0 && !unsafe_piece(include_style_path@) ==> (r matches Ok(p)
            && p@ == "governance/policies/"@ + slashes(include_style_path@)),
{
    match assert_safe_piece(include_style_path) {
        Err(e) => {
            return Err(e);
        },
        Ok(()) => {},
    }
    let cs = chars_of(include_style_path);
    let mut out = owned("governance/policies/");
    let ghost start = out@;
    let mut i: usize = 0;
    while i < cs.len()
        invariant
            i <= cs.len(),
            cs@ == include_style_path@,
            out@ == start + slashes(cs@.take(i as int)),
        decreases cs.len() - i,
    {
        let c = if cs[i] == '\\' {
            '/'
        } else {
            cs[i]
        };
        push_char(&mut out, c);
        assert(slashes(cs@.take(i + 1)) == slashes(cs@.take(i as int)).push(c));
        i = i + 1;
    }
    assert(cs@.take(cs.len() as int) == cs@);
    Ok(out)
}

// ───────────────────────── ordering by path ─────────────────────────

/// `a` sorts before or equal to `b`, character by character (the order of
/// `str`'s `Ord`, which compares UTF-8 bytes: byte order and character
/// order agree).
pub open spec fn lex_le(a: Seq<char>, b: Seq<char>) -> bool
    decreases a.len(),
{
    if a.len() == 0 {
        true
    } else if b.len() == 0 {
        false
    } else if a[0] != b[0] {
        a[0] < b[0]
    } else {
        lex_le(a.drop_first(), b.drop_first())
    }
}

/// Every string sorts before or equal to itself.
pub proof fn lemma_lex_refl(a: Seq<char>)
    ensures
        lex_le(a, a),
    decreases a.len(),
{
    if a.len() > 0 {
        lemma_lex_refl(a.drop_first());
    }
}

/// Any two strings are ordered one way or the other.
pub proof fn lemma_lex_total(a: Seq<char>, b: Seq<char>)
    ensures
        lex_le(a, b) || lex_le(b, a),
    decreases a.len(),
{
    if a.len() > 0 && b.len() > 0 && a[0] == b[0] {
        lemma_lex_total(a.drop_first(), b.drop_first());
    }
}

/// The order is transitive.
pub proof fn lemma_lex_trans(a: Seq<char>, b: Seq<char>, c: Seq<char>)
    requires
        lex_le(a, b),
        lex_le(b, c),
    ensures
        lex_le(a, c),
    decreases a.len(),
{
    if a.len() > 0 && b.len() > 0 && c.len() > 0 && a[0] == b[0] && b[0] == c[0] {
        lemma_lex_trans(a.drop_first(), b.drop_first(), c.drop_first());
    }
}

/// Strings ordered both ways are equal.
pub proof fn lemma_lex_antisym(a: Seq<char>, b: Seq<char>)
    requires
        lex_le(a, b),
        lex_le(b, a),
    ensures
        a == b,
    decreases a.len(),
{
    if a.len() == 0 {
        assert(b.len() == 0);
        assert(a =~= b);
    } else {
        assert(b.len() > 0 && a[0] == b[0]);
        lemma_lex_antisym(a.drop_first(), b.drop_first());
        assert(a =~= seq![a[0]] + a.drop_first());
        assert(b =~= seq![b[0]] + b.drop_first());
    }
}

/// Strings that agree on their first `i` characters compare as what follows.
proof fn lemma_lex_skip(a: Seq<char>, b: Seq<char>, i: int)
    requires
        0 <= i <= a.len(),
        i <= b.len(),
        a.take(i) == b.take(i),
    ensures
        lex_le(a, b) == lex_le(a.skip(i), b.skip(i)),
    decreases i,
{
    if i > 0 {
        assert(a[0] == a.take(i)[0]);
        assert(b[0] == b.take(i)[0]);
        assert(a.drop_first().take(i - 1) == a.take(i).drop_first());
        assert(b.drop_first().take(i - 1) == b.take(i).drop_first());
        lemma_lex_skip(a.drop_first(), b.drop_first(), i - 1);
        assert(a.drop_first().skip(i - 1) == a.skip(i));
        assert(b.drop_first().skip(i - 1) == b.skip(i));
    } else {
        assert(a.skip(0) == a);
        assert(b.skip(0) == b);
    }
}

/// Whether `a` sorts strictly before `b`.
pub fn str_lt(a: &str, b: &str) -> (r: bool)
    ensures
        r == !lex_le(b@, a@),
{
    let cs = chars_of(a);
    let ds = chars_of(b);
    let mut i: usize = 0;
    while i < cs.len() && i < ds.len() && cs[i] == ds[i]
        invariant
            i <= cs.len(),
            i <= ds.len(),
            cs@.take(i as int) == ds@.take(i as int),
        decreases cs.len() - i,
    {
        assert(cs@.take(i + 1) == cs@.take(i as int).push(cs@[i as int]));
        assert(ds@.take(i + 1) == ds@.take(i as int).push(ds@[i as int]));
        i = i + 1;
    }
    proof {
        lemma_lex_skip(ds@, cs@, i as int);
    }
    if i == ds.len() {
        false
    } else if i == cs.len() {
        true
    } else {
        cs[i] < ds[i]
    }
}

/// The paths of the fingerprints are in order.
pub open spec fn sorted_by_path(v: Seq<PolicySourceFingerprint>) -> bool {
    forall|i: int, j: int|
        0 <= i < j < v.len() ==> lex_le(
            (#[trigger] v[i]).repo_relative_path@,
            (#[trigger] v[j]).repo_relative_path@,
        )
}

/// `out` is `input` rearranged, element `k` of `out` being element
/// `perm[k]` of `input`, with fingerprints of equal paths kept in their
/// input order.
pub open spec fn stable_arrangement(
    input: Seq<PolicySourceFingerprint>,
    out: Seq<PolicySourceFingerprint>,
    perm: Seq<int>,
) -> bool {
    &&& perm.len() == out.len()
    &&& out.len() == input.len()
    &&& forall|k: int|
        0 <= k < out.len() ==> 0 <= #[trigger] perm[k] < input.len() && out[k] == input[perm[k]]
    &&& forall|k1: int, k2: int|
        0 <= k1 < k2 < out.len() ==> #[trigger] perm[k1] != #[trigger] perm[k2]
    &&& forall|k1: int, k2: int|
        0 <= k1 < k2 < out.len() && (#[trigger] out[k1]).repo_relative_path@ == (
        #[trigger] out[k2]).repo_relative_path@ ==> perm[k1] < perm[k2]
}

/// Sorts fingerprints by path, keeping fingerprints of equal paths in
/// their order (`sort_by` on the paths).
pub fn sort_policy_pack_fingerprints(packs: Vec<PolicySourceFingerprint>) -> (r: Vec<
    PolicySourceFingerprint,
>)
    ensures
        sorted_by_path(r@),
        r@.to_multiset() == packs@.to_multiset(),
        exists|perm: Seq<int>| stable_arrangement(packs@, r@, perm),
{
    let ghost input = packs@;
    let mut rest = packs;
    let mut out: Vec<PolicySourceFingerprint> = Vec::new();
    let ghost mut perm: Seq<int> = Seq::empty();
    proof {
        assert(rest@.take(rest@.len() as int) == rest@);
        broadcast use vstd::seq_lib::group_to_multiset_ensures;
    }
    while rest.len() > 0
        invariant
            rest@ == input.take(rest@.len() as int),
            rest@.len() <= input.len(),
            out@.len() == input.len() - rest@.len(),
            perm.len() == out@.len(),
            forall|k: int|
                0 <= k < out@.len() ==> rest@.len() <= #[trigger] perm[k] < input.len()
                    && out@[k] == input[perm[k]],
            forall|k1: int, k2: int|
                0 <= k1 < k2 < out@.len() ==> #[trigger] perm[k1] != #[trigger] perm[k2],
            forall|k1: int, k2: int|
                0 <= k1 < k2 < out@.len() && (#[trigger] out@[k1]).repo_relative_path@ == (
                #[trigger] out@[k2]).repo_relative_path@ ==> perm[k1] < perm[k2],
            sorted_by_path(out@),
            out@.to_multiset().add(rest@.to_multiset()) == input.to_multiset(),
        decreases rest.len(),
    {
        let ghost m = (rest@.len() - 1) as int;
        let ghost rest_before = rest@;
        let x = rest.pop().unwrap();
        proof {
            assert(rest_before == rest@.push(x));
            vstd::seq_lib::to_multiset_build(rest@, x);
            assert(x == input[m]);
            assert(rest@ == input.take(m));
        }
        let mut p: usize = 0;
        while p < out.len() && str_lt(out[p].repo_relative_path.as_str(), x.repo_relative_path.as_str())
            invariant
                p <= out@.len(),
                forall|q: int|
                    0 <= q < p ==> !lex_le(
                        x.repo_relative_path@,
                        (#[trigger] out@[q]).repo_relative_path@,
                    ),
            decreases out.len() - p,
        {
            p = p + 1;
        }
        let ghost old_out = out@;
        let ghost old_perm = perm;
        proof {
            vstd::seq_lib::to_multiset_insert(old_out, p as int, x);
        }
        out.insert(p, x);
        proof {
            perm = old_perm.insert(p as int, m);
            let xp = x.repo_relative_path@;
            assert(p < old_out.len() ==> lex_le(xp, old_out[p as int].repo_relative_path@));
            assert forall|k: int|
                0 <= k < out@.len() implies rest@.len() <= #[trigger] perm[k] < input.len()
                && out@[k] == input[perm[k]] by {
                if k < p {
                    assert(out@[k] == old_out[k] && perm[k] == old_perm[k]);
                } else if k > p {
                    assert(out@[k] == old_out[k - 1] && perm[k] == old_perm[k - 1]);
                }
            }
            assert forall|k1: int, k2: int| 0 <= k1 < k2 < out@.len() implies #[trigger] perm[k1]
                != #[trigger] perm[k2] by {
                if k1 != p && k2 != p {
                    let o1 = if k1 < p { k1 } else { k1 - 1 };
                    let o2 = if k2 < p { k2 } else { k2 - 1 };
                    assert(perm[k1] == old_perm[o1] && perm[k2] == old_perm[o2]);
                } else if k1 == p {
                    assert(perm[k2] == old_perm[k2 - 1]);
                } else {
                    assert(perm[k1] == old_perm[k1]);
                }
            }
            assert forall|i: int, j: int| 0 <= i < j < out@.len() implies lex_le(
                (#[trigger] out@[i]).repo_relative_path@,
                (#[trigger] out@[j]).repo_relative_path@,
            ) by {
                let oi = if i < p { i } else { i - 1 };
                let oj = if j < p { j } else { j - 1 };
                if i != p && j != p {
                    assert(out@[i] == old_out[oi] && out@[j] == old_out[oj]);
                } else if j == p {
                    assert(out@[i] == old_out[i]);
                    lemma_lex_total(xp, old_out[i].repo_relative_path@);
                } else {
                    assert(out@[j] == old_out[j - 1]);
                    if j - 1 > p {
                        lemma_lex_trans(
                            xp,
                            old_out[p as int].repo_relative_path@,
                            old_out[j - 1].repo_relative_path@,
                        );
                    }
                }
            }
            assert forall|k1: int, k2: int|
                0 <= k1 < k2 < out@.len() && (#[trigger] out@[k1]).repo_relative_path@ == (
                #[trigger] out@[k2]).repo_relative_path@ implies perm[k1] < perm[k2] by {
                if k1 != p && k2 != p {
                    let o1 = if k1 < p { k1 } else { k1 - 1 };
                    let o2 = if k2 < p { k2 } else { k2 - 1 };
                    assert(out@[k1] == old_out[o1] && out@[k2] == old_out[o2]);
                    assert(perm[k1] == old_perm[o1] && perm[k2] == old_perm[o2]);
                } else if k2 == p {
                    assert(out@[k1] == old_out[k1]);
                    lemma_lex_refl(xp);
                } else {
                    assert(perm[k2] == old_perm[k2 - 1]);
                }
            }
            assert(out@.to_multiset().add(rest@.to_multiset()) == input.to_multiset()) by {
                broadcast use vstd::multiset::group_multiset_axioms;

                assert(out@.to_multiset() == old_out.to_multiset().insert(x));
                assert(rest_before.to_multiset() == rest@.to_multiset().insert(x));
                assert(out@.to_multiset().add(rest@.to_multiset()) =~= old_out.to_multiset().add(
                    rest_before.to_multiset(),
                ));
            }
        }
    }
    proof {
        assert(rest@.to_multiset() =~= vstd::multiset::Multiset::empty()) by {
            broadcast use vstd::seq_lib::group_to_multiset_ensures;

            assert(rest@.len() == 0);
            assert(rest@ == Seq::<PolicySourceFingerprint>::empty());
            vstd::seq_lib::to_multiset_len(rest@);
        }
        assert(out@.to_multiset() =~= input.to_multiset()) by {
            broadcast use vstd::multiset::group_multiset_axioms;

        }
        assert(stable_arrangement(input, out@, perm));
    }
    out
}

// ───────────────────────── the ceremony source manifest ─────────────────────────

/// Errors of ceremony/debt snapshot building that this library reports.
#[derive(Debug)]
pub enum CeremonyDebtSnapshotError {
    /// The embedded material is inconsistent; the message says how.
    Invalid(String),
}

/// The repo-relative paths of the governance sources a ceremony/debt
/// snapshot embeds, in order.
pub open spec fn ceremony_debt_source_paths() -> Seq<Seq<char>> {
    seq![
        "governance/ceremonies/budgets.toml"@,
        "governance/ceremonies/capability_minting.toml"@,
        "governance/ceremonies/machine_creation.toml"@,
        "governance/ceremonies/policy_update.toml"@,
        "governance/ceremonies/policy_weakening.toml"@,
        "governance/decision_surface/registry.toml"@,
    ]
}

/// The repo-relative paths of the embedded ceremony/debt sources.
pub fn embedded_ceremony_debt_source_paths_expectation() -> (r: Vec<String>)
    ensures
        string_views(r@) == ceremony_debt_source_paths(),
{
    let mut r: Vec<String> = Vec::new();
    r.push(owned("governance/ceremonies/budgets.toml"));
    r.push(owned("governance/ceremonies/capability_minting.toml"));
    r.push(owned("governance/ceremonies/machine_creation.toml"));
    r.push(owned("governance/ceremonies/policy_update.toml"));
    r.push(owned("governance/ceremonies/policy_weakening.toml"));
    r.push(owned("governance/decision_surface/registry.toml"));
    assert(string_views(r@) =~= ceremony_debt_source_paths());
    r
}

/// The strings are in order.
pub open spec fn strs_sorted(s: Seq<Seq<char>>) -> bool {
    forall|i: int, j: int| 0 <= i < j < s.len() ==> lex_le(#[trigger] s[i], #[trigger] s[j])
}

/// `x` inserted into `s` after every string that sorts before or equal to
/// it.
pub open spec fn insert_in_order(s: Seq<Seq<char>>, x: Seq<char>) -> Seq<Seq<char>>
    decreases s.len(),
{
    if s.len() == 0 {
        seq![x]
    } else if !lex_le(s[0], x) {
        seq![x] + s
    } else {
        seq![s[0]] + insert_in_order(s.drop_first(), x)
    }
}

/// `s` in order (insertion sort).
pub open spec fn sort_strs(s: Seq<Seq<char>>) -> Seq<Seq<char>>
    decreases s.len(),
{
    if s.len() == 0 {
        Seq::empty()
    } else {
        insert_in_order(sort_strs(s.drop_last()), s.last())
    }
}

proof fn lemma_insert_in_order(s: Seq<Seq<char>>, x: Seq<char>)
    requires
        strs_sorted(s),
    ensures
        strs_sorted(insert_in_order(s, x)),
        insert_in_order(s, x).to_multiset() == s.to_multiset().insert(x),
        insert_in_order(s, x).len() == s.len() + 1,
        insert_in_order(s, x).len() > 0,
        insert_in_order(s, x)[0] == x || (s.len() > 0 && insert_in_order(s, x)[0] == s[0]),
    decreases s.len(),
{
    broadcast use vstd::seq_lib::group_to_multiset_ensures;
    broadcast use vstd::multiset::group_multiset_axioms;

    let r = insert_in_order(s, x);
    if s.len() == 0 {
        assert(r == seq![x]);
        assert(seq![x] == Seq::<Seq<char>>::empty().push(x));
        vstd::seq_lib::to_multiset_build(Seq::<Seq<char>>::empty(), x);
    } else if !lex_le(s[0], x) {
        lemma_lex_total(s[0], x);
        assert(r == s.insert(0, x));
        vstd::seq_lib::to_multiset_insert(s, 0, x);
        assert forall|i: int, j: int| 0 <= i < j < r.len() implies lex_le(
            #[trigger] r[i],
            #[trigger] r[j],
        ) by {
            if i == 0 {
                assert(r[j] == s[j - 1]);
                if j - 1 > 0 {
                    lemma_lex_trans(x, s[0], s[j - 1]);
                }
            } else {
                assert(r[i] == s[i - 1] && r[j] == s[j - 1]);
            }
        }
    } else {
        let t = s.drop_first();
        assert forall|i: int, j: int| 0 <= i < j < t.len() implies lex_le(
            #[trigger] t[i],
            #[trigger] t[j],
        ) by {
            assert(t[i] == s[i + 1] && t[j] == s[j + 1]);
        }
        lemma_insert_in_order(t, x);
        let rt = insert_in_order(t, x);
        assert(r == seq![s[0]] + rt);
        assert forall|i: int, j: int| 0 <= i < j < r.len() implies lex_le(
            #[trigger] r[i],
            #[trigger] r[j],
        ) by {
            if i == 0 {
                assert(r[j] == rt[j - 1]);
                assert(rt.to_multiset().count(rt[j - 1]) > 0);
                assert((t.to_multiset().insert(x)).count(rt[j - 1]) > 0);
                if rt[j - 1] == x {
                } else {
                    assert(t.to_multiset().count(rt[j - 1]) > 0);
                    assert(t.contains(rt[j - 1]));
                    let k = choose|k: int| 0 <= k < t.len() && t[k] == rt[j - 1];
                    assert(s[k + 1] == t[k]);
                }
            } else {
                assert(r[i] == rt[i - 1] && r[j] == rt[j - 1]);
            }
        }
        assert(s == seq![s[0]] + t);
        vstd::seq_lib::lemma_multiset_commutative(seq![s[0]], rt);
        vstd::seq_lib::lemma_multiset_commutative(seq![s[0]], t);
        assert(r.to_multiset() == seq![s[0]].to_multiset().add(rt.to_multiset()));
        assert(s.to_multiset() == seq![s[0]].to_multiset().add(t.to_multiset()));
        assert(r.to_multiset() =~= s.to_multiset().insert(x));
    }
}

/// Law: `sort_strs` gives the strings in order, each as often as given.
pub proof fn lemma_sort_strs(s: Seq<Seq<char>>)
    ensures
        strs_sorted(sort_strs(s)),
        sort_strs(s).to_multiset() == s.to_multiset(),
        sort_strs(s).len() == s.len(),
    decreases s.len(),
{
    broadcast use vstd::seq_lib::group_to_multiset_ensures;

    if s.len() == 0 {
        assert(sort_strs(s) == Seq::<Seq<char>>::empty());
        assert(s == Seq::<Seq<char>>::empty());
    } else {
        lemma_sort_strs(s.drop_last());
        lemma_insert_in_order(sort_strs(s.drop_last()), s.last());
        assert(s == s.drop_last().push(s.last()));
        vstd::seq_lib::to_multiset_build(s.drop_last(), s.last());
    }
}

proof fn lemma_sort_sorted_is_identity(s: Seq<Seq<char>>)
    requires
        strs_sorted(s),
    ensures
        sort_strs(s) == s,
    decreases s.len(),
{
    if s.len() > 0 {
        let d = s.drop_last();
        assert forall|i: int, j: int| 0 <= i < j < d.len() implies lex_le(
            #[trigger] d[i],
            #[trigger] d[j],
        ) by {
            assert(d[i] == s[i] && d[j] == s[j]);
        }
        lemma_sort_sorted_is_identity(d);
        lemma_insert_after_all(d, s.last());
        assert(d.push(s.last()) == s);
    }
}

proof fn lemma_insert_after_all(s: Seq<Seq<char>>, x: Seq<char>)
    requires
        forall|i: int| 0 <= i < s.len() ==> lex_le(#[trigger] s[i], x),
    ensures
        insert_in_order(s, x) == s.push(x),
    decreases s.len(),
{
    if s.len() > 0 {
        let t = s.drop_first();
        assert forall|i: int| 0 <= i < t.len() implies lex_le(#[trigger] t[i], x) by {
            assert(t[i] == s[i + 1]);
        }
        lemma_insert_after_all(t, x);
        assert(lex_le(s[0], x));
        assert(seq![s[0]] + t.push(x) == s.push(x));
    }
}

/// What `format!("{:?}", list)` gives for a list of string slices: each
/// item as `{:?}` writes it, joined by `", "`, in square brackets.
pub open spec fn str_list_debug(xs: Seq<Seq<char>>) -> Seq<char> {
    "["@ + crate::lql::join(xs.map_values(|x: Seq<char>| crate::text::str_debug(x)), ", "@) + "]"@
}

/// `format!("{:?}", list)` for a list of string slices (`str_list_debug`).
fn debug_str_list(xs: &Vec<&str>) -> (r: String)
    ensures
        r@ == str_list_debug(xs@.map_values(|s: &str| s@)),
{
    let ghost ds = xs@.map_values(|s: &str| s@).map_values(|x: Seq<char>| crate::text::str_debug(x));
    let mut out = owned("[");
    let mut i: usize = 0;
    while i < xs.len()
        invariant
            i <= xs@.len(),
            ds == xs@.map_values(|s: &str| s@).map_values(|x: Seq<char>| crate::text::str_debug(x)),
            out@ == "["@ + crate::lql::join(ds.take(i as int), ", "@),
        decreases xs.len() - i,
    {
        let d = crate::text::debug_str(xs[i]);
        proof {
            assert(ds.take(i + 1).drop_last() =~= ds.take(i as int));
            assert(ds.take(i + 1).last() == d@);
        }
        if i > 0 {
            out.append(", ");
        } else {
            assert(ds.take(1) =~= seq![d@]);
            assert(ds.take(0) =~= Seq::<Seq<char>>::empty());
        }
        out.append(d.as_str());
        i = i + 1;
    }
    assert(ds.take(xs.len() as int) =~= ds);
    out.append("]");
    out
}

/// The message for a manifest out of order.
pub open spec fn manifest_order_message(declared: Seq<Seq<char>>) -> Seq<char> {
    "EMBEDDED_CEREMONY_DEBT must list repo_relative_path keys in lexicographic order (declared "@
        + str_list_debug(declared) + ", sorted "@ + str_list_debug(sort_strs(declared)) + ")"@
}

/// `x` inserted into the sorted `v` after every string that sorts before or
/// equal to it.
fn insert_str_in_order<'a>(v: &mut Vec<&'a str>, x: &'a str)
    ensures
        final(v)@.map_values(|s: &str| s@) == insert_in_order(
            old(v)@.map_values(|s: &str| s@),
            x@,
        ),
{
    let ghost sv = v@.map_values(|s: &str| s@);
    let mut p: usize = 0;
    assert(sv.skip(0) == sv);
    assert(sv.take(0) + insert_in_order(sv, x@) == insert_in_order(sv, x@));
    while p < v.len() && !str_lt(x, v[p])
        invariant
            p <= v@.len(),
            sv == v@.map_values(|s: &str| s@),
            insert_in_order(sv, x@) == sv.take(p as int) + insert_in_order(sv.skip(p as int), x@),
        decreases v.len() - p,
    {
        proof {
            let t = sv.skip(p as int);
            assert(t[0] == sv[p as int]);
            assert(t.drop_first() == sv.skip(p + 1));
            assert(sv.take(p + 1) == sv.take(p as int).push(sv[p as int]));
            assert(insert_in_order(t, x@) == seq![t[0]] + insert_in_order(sv.skip(p + 1), x@));
            assert(sv.take(p as int) + (seq![t[0]] + insert_in_order(sv.skip(p + 1), x@))
                == sv.take(p + 1) + insert_in_order(sv.skip(p + 1), x@));
        }
        p = p + 1;
    }
    proof {
        let t = sv.skip(p as int);
        if p < v.len() {
            assert(t[0] == sv[p as int]);
            assert(insert_in_order(t, x@) == seq![x@] + t);
        } else {
            assert(t.len() == 0);
        }
        assert(sv.take(p as int) + (seq![x@] + t) == sv.insert(p as int, x@));
    }
    v.insert(p, x);
    assert(v@.map_values(|s: &str| s@) == sv.insert(p as int, x@));
}

/// Checks that the manifest lists its paths in order: `Ok` exactly when
/// they are sorted, else the error naming the paths as declared and as
/// sorted.
pub fn manifest_paths_lexicographic(embedded: &[(&str, &str)]) -> (r: Result<
    (),
    CeremonyDebtSnapshotError,
>)
    ensures
        ({
            let declared = embedded@.map_values(|e: (&str, &str)| e.0@);
            &&& r is Ok <==> strs_sorted(declared)
            &&& r matches Err(CeremonyDebtSnapshotError::Invalid(m)) ==> m@
                == manifest_order_message(declared)
        }),
{
    let ghost declared_view = embedded@.map_values(|e: (&str, &str)| e.0@);
    let mut declared: Vec<&str> = Vec::new();
    let mut sorted: Vec<&str> = Vec::new();
    let mut i: usize = 0;
    while i < embedded.len()
        invariant
            i <= embedded@.len(),
            declared_view == embedded@.map_values(|e: (&str, &str)| e.0@),
            declared@.map_values(|s: &str| s@) == declared_view.take(i as int),
            sorted@.map_values(|s: &str| s@) == sort_strs(declared_view.take(i as int)),
        decreases embedded.len() - i,
    {
        let path = embedded[i].0;
        let ghost before = declared@;
        declared.push(path);
        insert_str_in_order(&mut sorted, path);
        proof {
            let t = declared_view.take(i + 1);
            assert(t.drop_last() == declared_view.take(i as int));
            assert(t.last() == path@);
            assert(declared@.map_values(|s: &str| s@) == before.map_values(|s: &str| s@).push(
                path@,
            ));
        }
        i = i + 1;
    }
    proof {
        assert(declared_view.take(embedded.len() as int) == declared_view);
    }
    let ghost dv = declared_view;
    let mut same = true;
    let mut k: usize = 0;
    proof {
        lemma_sort_strs(dv);
        assert(dv.take(0) =~= sort_strs(dv).take(0));
    }
    while k < declared.len()
        invariant
            k <= declared@.len(),
            declared@.len() == sorted@.len(),
            declared@.map_values(|s: &str| s@) == dv,
            sorted@.map_values(|s: &str| s@) == sort_strs(dv),
            same == (dv.take(k as int) == sort_strs(dv).take(k as int)),
        decreases declared.len() - k,
    {
        let eq = crate::lql::str_eq(declared[k], sorted[k]);
        proof {
            assert(declared@.map_values(|s: &str| s@)[k as int] == declared@[k as int]@);
            assert(sorted@.map_values(|s: &str| s@)[k as int] == sorted@[k as int]@);
            assert(dv.take(k + 1) == dv.take(k as int).push(dv[k as int]));
            assert(sort_strs(dv).take(k + 1) == sort_strs(dv).take(k as int).push(
                sort_strs(dv)[k as int],
            ));
            if !same {
                assert(dv.take(k + 1).take(k as int) == dv.take(k as int));
                assert(sort_strs(dv).take(k + 1).take(k as int) == sort_strs(dv).take(k as int));
            } else if eq {
                assert(dv.take(k + 1) =~= sort_strs(dv).take(k + 1));
            } else {
                assert(dv.take(k + 1)[k as int] != sort_strs(dv).take(k + 1)[k as int]);
            }
        }
        same = same && eq;
        k = k + 1;
    }
    proof {
        assert(dv.take(dv.len() as int) == dv);
        assert(sort_strs(dv).take(dv.len() as int) == sort_strs(dv));
        if strs_sorted(dv) {
            lemma_sort_sorted_is_identity(dv);
        }
    }
    if !same {
        let mut m = owned(
            "EMBEDDED_CEREMONY_DEBT must list repo_relative_path keys in lexicographic order (declared ",
        );
        let d = debug_str_list(&declared);
        m.append(d.as_str());
        m.append(", sorted ");
        let s2 = debug_str_list(&sorted);
        m.append(s2.as_str());
        m.append(")");
        return Err(CeremonyDebtSnapshotError::Invalid(m));
    }
    Ok(())
}

// ───────────────────────── preview drafts ─────────────────────────

/// Where the facts of a preview come from.
#[derive(Debug, Clone)]
pub enum PreviewFactsSpecification {
    /// The governance facts bundled with the CI policy input fixture.
    Fixture,
    /// A JSON array of policy facts.
    CustomJson(String),
}

impl Default for PreviewFactsSpecification {
    fn default() -> (r: Self)
        ensures
            r is Fixture,
    {
        PreviewFactsSpecification::Fixture
    }
}

/// The fields a policy eval preview form edits. Target paths and evidence
/// are one entry per line.
#[derive(Debug, Clone)]
pub struct PolicyEvalPreviewDraft {
    pub actor: String,
    pub action: String,
    pub state_hash: String,
    pub risk: u64,
    pub target_paths_raw: String,
    pub evidence_raw: String,
    pub facts: PreviewFactsSpecification,
}

impl Default for PolicyEvalPreviewDraft {
    fn default() -> (r: Self)
        ensures
            r.actor@.len() == 0,
            r.action@.len() == 0,
            r.state_hash@.len() == 0,
            r.risk == 0,
            r.target_paths_raw@.len() == 0,
            r.evidence_raw@.len() == 0,
            r.facts is Fixture,
    {
        PolicyEvalPreviewDraft {
            actor: String::new(),
            action: String::new(),
            state_hash: String::new(),
            risk: 0,
            target_paths_raw: String::new(),
            evidence_raw: String::new(),
            facts: PreviewFactsSpecification::Fixture,
        }
    }
}

/// The fields of a policy input that a preview draft reads and writes.
#[derive(Debug, Clone)]
pub struct PolicyInputFields {
    pub actor: String,
    pub action: String,
    pub state_hash: String,
    pub risk: u64,
    pub target_paths: Vec<String>,
    pub evidence: Vec<String>,
}

/// The entries of a one-per-line block: each line trimmed, empty lines
/// dropped (`lines`, `trim`, then a filter on emptiness; splitting at
/// `\n` alone gives the same entries, since `trim` removes a `\r` that
/// `lines` would and a missing or final newline only adds an empty line).
pub fn split_nonempty_lines(block: &str) -> (r: Vec<String>)
    ensures
        string_views(r@) == nonempty_trimmed(split_on(block@, '\n')),
{
    crate::text::split_trimmed_nonempty(block, '\n')
}

/// `v` joined with newlines.
fn join_lines(v: &Vec<String>) -> (r: String)
    ensures
        r@ == join(string_views(v@), "\n"@),
{
    let ghost sv = string_views(v@);
    let mut out = String::new();
    let mut i: usize = 0;
    while i < v.len()
        invariant
            i <= v@.len(),
            sv == string_views(v@),
            out@ == join(sv.take(i as int), "\n"@),
        decreases v.len() - i,
    {
        if i > 0 {
            out.append("\n");
        }
        out.append(v[i].as_str());
        proof {
            let t = sv.take(i + 1);
            assert(t.drop_last() == sv.take(i as int));
            assert(t.last() == v@[i as int]@);
            if i == 0 {
                assert(join(t, "\n"@) == t[0]);
            }
        }
        i = i + 1;
    }
    assert(sv.take(v.len() as int) == sv);
    out
}

/// A draft holding the CI fixture's fields, its lists one entry per line,
/// with the fixture's facts.
pub fn preview_draft_from_ci_fixture(input: &PolicyInputFields) -> (r: PolicyEvalPreviewDraft)
    ensures
        r.actor@ == input.actor@,
        r.action@ == input.action@,
        r.state_hash@ == input.state_hash@,
        r.risk == input.risk,
        r.target_paths_raw@ == join(string_views(input.target_paths@), "\n"@),
        r.evidence_raw@ == join(string_views(input.evidence@), "\n"@),
        r.facts is Fixture,
{
    PolicyEvalPreviewDraft {
        actor: input.actor.clone(),
        action: input.action.clone(),
        state_hash: input.state_hash.clone(),
        risk: input.risk,
        target_paths_raw: join_lines(&input.target_paths),
        evidence_raw: join_lines(&input.evidence),
        facts: PreviewFactsSpecification::Fixture,
    }
}

/// The policy input fields a draft sets: its text fields trimmed, its risk,
/// and its lists split into trimmed non-empty lines.
pub fn policy_input_fields_from_draft(draft: &PolicyEvalPreviewDraft) -> (r: PolicyInputFields)
    ensures
        r.actor@ == trim(draft.actor@),
        r.action@ == trim(draft.action@),
        r.state_hash@ == trim(draft.state_hash@),
        r.risk == draft.risk,
        string_views(r.target_paths@) == nonempty_trimmed(split_on(draft.target_paths_raw@, '\n')),
        string_views(r.evidence@) == nonempty_trimmed(split_on(draft.evidence_raw@, '\n')),
{
    PolicyInputFields {
        actor: crate::text::trim_str(draft.actor.as_str()),
        action: crate::text::trim_str(draft.action.as_str()),
        state_hash: crate::text::trim_str(draft.state_hash.as_str()),
        risk: draft.risk,
        target_paths: split_nonempty_lines(draft.target_paths_raw.as_str()),
        evidence: split_nonempty_lines(draft.evidence_raw.as_str()),
    }
}

/// The facts payload a draft asks for: `None` for the fixture's facts, the
/// trimmed JSON text for custom facts, or an error when that text is empty.
pub fn draft_custom_facts_json(draft: &PolicyEvalPreviewDraft) -> (r: Result<
    Option<String>,
    SnapshotError,
>)
    ensures
        draft.facts is Fixture ==> r matches Ok(None),
        draft.facts matches PreviewFactsSpecification::CustomJson(raw) ==> if trim(raw@).len()
            == 0 {
            r matches Err(SnapshotError::Draft(m)) && m@ == "facts custom json payload is empty"@
        } else {
            r matches Ok(Some(t)) && t@ == trim(raw@)
        },
{
    match &draft.facts {
        PreviewFactsSpecification::Fixture => Ok(None),
        PreviewFactsSpecification::CustomJson(raw) => {
            let t = crate::text::trim_str(raw.as_str());
            if t.as_str().is_empty() {
                Err(SnapshotError::Draft(owned("facts custom json payload is empty")))
            } else {
                Ok(Some(t))
            }
        },
    }
}

/// One ceremony definition, flattened for projection.
#[derive(Debug, Clone)]
pub struct CeremonyDefinitionLeaf {
    pub repo_relative_path: String,
    pub content_sha256: String,
    pub schema_version: String,
    pub id: String,
    pub name: String,
    pub max_open_llm_decisions: Option<u64>,
    pub phases: Vec<String>,
    pub required_evidence: Vec<String>,
    pub required_artifacts: Vec<String>,
    pub authority: std::collections::BTreeMap<String, String>,
}


// ───────────────────────── embedded pack keys ─────────────────────────

/// Two sorted lists of the same strings, each as often, are equal.
proof fn lemma_sorted_unique(x: Seq<Seq<char>>, y: Seq<Seq<char>>)
    requires
        strs_sorted(x),
        strs_sorted(y),
        x.to_multiset() == y.to_multiset(),
    ensures
        x == y,
    decreases x.len(),
{
    broadcast use vstd::seq_lib::group_to_multiset_ensures;

    vstd::seq_lib::to_multiset_len(x);
    vstd::seq_lib::to_multiset_len(y);
    assert(x.len() == y.len());
    if x.len() == 0 {
        assert(x =~= y);
    } else {
        assert(x.contains(x[0]));
        assert(y.to_multiset().count(x[0]) > 0);
        let k = choose|k: int| 0 <= k < y.len() && y[k] == x[0];
        if k > 0 {
            assert(lex_le(y[0], y[k]));
        } else {
            lemma_lex_refl(y[0]);
        }
        assert(y.contains(y[0]));
        assert(x.to_multiset().count(y[0]) > 0);
        let l = choose|l: int| 0 <= l < x.len() && x[l] == y[0];
        if l > 0 {
            assert(lex_le(x[0], x[l]));
        } else {
            lemma_lex_refl(x[0]);
        }
        lemma_lex_antisym(x[0], y[0]);
        let xr = x.remove(0);
        let yr = y.remove(0);
        assert(xr.to_multiset() == x.to_multiset().remove(x[0]));
        assert(yr.to_multiset() == y.to_multiset().remove(y[0]));
        assert forall|i: int, j: int| 0 <= i < j < xr.len() implies lex_le(
            #[trigger] xr[i],
            #[trigger] xr[j],
        ) by {
            assert(xr[i] == x[i + 1] && xr[j] == x[j + 1]);
        }
        assert forall|i: int, j: int| 0 <= i < j < yr.len() implies lex_le(
            #[trigger] yr[i],
            #[trigger] yr[j],
        ) by {
            assert(yr[i] == y[i + 1] && yr[j] == y[j + 1]);
        }
        lemma_sorted_unique(xr, yr);
        assert(x =~= seq![x[0]] + xr);
        assert(y =~= seq![y[0]] + yr);
    }
}

/// Law: two lists sort to the same list exactly when they hold the same
/// strings, each as often.
pub proof fn lemma_sort_strs_same_strings(a: Seq<Seq<char>>, b: Seq<Seq<char>>)
    ensures
        (sort_strs(a) == sort_strs(b)) == (a.to_multiset() == b.to_multiset()),
{
    lemma_sort_strs(a);
    lemma_sort_strs(b);
    if a.to_multiset() == b.to_multiset() {
        lemma_sorted_unique(sort_strs(a), sort_strs(b));
    }
}

/// Sorts strings.
fn sort_strings(v: Vec<String>) -> (r: Vec<String>)
    ensures
        string_views(r@) == sort_strs(string_views(v@)),
{
    let ghost all = string_views(v@);
    let mut out: Vec<String> = Vec::new();
    let mut i: usize = 0;
    assert(all.take(0) == Seq::<Seq<char>>::empty());
    while i < v.len()
        invariant
            i <= v@.len(),
            all == string_views(v@),
            string_views(out@) == sort_strs(all.take(i as int)),
        decreases v.len() - i,
    {
        let x = v[i].clone();
        let ghost s = string_views(out@);
        assert(all.take(i + 1).drop_last() == all.take(i as int));
        assert(all.take(i + 1).last() == x@);
        let mut p: usize = 0;
        assert(s.skip(0) == s);
        assert(s.take(0) == Seq::<Seq<char>>::empty());
        while p < out.len() && !str_lt(x.as_str(), out[p].as_str())
            invariant
                p <= out@.len(),
                s == string_views(out@),
                insert_in_order(s, x@) == s.take(p as int) + insert_in_order(s.skip(p as int), x@),
            decreases out.len() - p,
        {
            let ghost u = s.skip(p as int);
            assert(u[0] == s[p as int]);
            assert(u.drop_first() == s.skip(p + 1));
            assert(s.take(p + 1) == s.take(p as int).push(s[p as int]));
            assert(s.take(p as int) + (seq![s[p as int]] + insert_in_order(s.skip(p + 1), x@))
                == s.take(p + 1) + insert_in_order(s.skip(p + 1), x@));
            p = p + 1;
        }
        proof {
            if p == out@.len() {
                assert(s.skip(p as int) == Seq::<Seq<char>>::empty());
                assert(s.take(p as int) == s);
            } else {
                let u = s.skip(p as int);
                assert(u[0] == s[p as int]);
            }
        }
        out.insert(p, x);
        assert(string_views(out@) == s.take(p as int) + (seq![x@] + s.skip(p as int)));
        i = i + 1;
    }
    assert(all.take(v.len() as int) == all);
    out
}

/// Whether two lists of strings are equal.
fn string_lists_equal(a: &Vec<String>, b: &Vec<String>) -> (r: bool)
    ensures
        r == (string_views(a@) == string_views(b@)),
{
    if a.len() != b.len() {
        assert(string_views(a@).len() != string_views(b@).len());
        return false;
    }
    let mut i: usize = 0;
    while i < a.len()
        invariant
            i <= a@.len(),
            a@.len() == b@.len(),
            forall|j: int| 0 <= j < i ==> a@[j]@ == b@[j]@,
        decreases a.len() - i,
    {
        if !crate::lql::str_eq(a[i].as_str(), b[i].as_str()) {
            assert(string_views(a@)[i as int] != string_views(b@)[i as int]);
            return false;
        }
        i = i + 1;
    }
    assert(string_views(a@) == string_views(b@));
    true
}

/// `format!("{:?}", list)` for a list of strings.
fn debug_strings(xs: &Vec<String>) -> (r: String)
    ensures
        r@ == str_list_debug(string_views(xs@)),
{
    let mut refs: Vec<&str> = Vec::new();
    let mut i: usize = 0;
    while i < xs.len()
        invariant
            i <= xs@.len(),
            refs@.len() == i,
            forall|j: int| 0 <= j < i ==> (#[trigger] refs@[j])@ == xs@[j]@,
        decreases xs.len() - i,
    {
        refs.push(xs[i].as_str());
        i = i + 1;
    }
    assert(refs@.map_values(|s: &str| s@) == string_views(xs@));
    debug_str_list(&refs)
}

/// The message for embedded pack keys that differ from the index's
/// includes, both lists sorted.
pub open spec fn pack_keys_message(declared: Seq<Seq<char>>, embedded: Seq<Seq<char>>) -> Seq<char> {
    "embedded policy pack map keys "@ + str_list_debug(sort_strs(embedded)) + " differ from index includes "@
        + str_list_debug(sort_strs(declared))
}

/// Checks that the embedded policy packs are exactly those the policy index
/// includes: the two key lists, each sorted, must be equal, that is, hold
/// the same keys, each as often.
pub fn check_embedded_pack_keys(declared: Vec<String>, embedded: Vec<String>) -> (r: Result<
    (),
    SnapshotError,
>)
    ensures
        sort_strs(string_views(declared@)) == sort_strs(string_views(embedded@)) ==> r is Ok,
        sort_strs(string_views(declared@)) != sort_strs(string_views(embedded@)) ==> (r matches Err(
            SnapshotError::InvalidFingerprint(m),
        ) && m@ == pack_keys_message(string_views(declared@), string_views(embedded@))),
        r is Ok <==> string_views(declared@).to_multiset() == string_views(embedded@).to_multiset(),
{
    proof {
        lemma_sort_strs_same_strings(string_views(declared@), string_views(embedded@));
    }
    let d = sort_strings(declared);
    let e = sort_strings(embedded);
    if !string_lists_equal(&d, &e) {
        let mut m = owned("embedded policy pack map keys ");
        let de = debug_strings(&e);
        m.append(de.as_str());
        m.append(" differ from index includes ");
        let dd = debug_strings(&d);
        m.append(dd.as_str());
        return Err(SnapshotError::InvalidFingerprint(m));
    }
    Ok(())
}

} // verus!
