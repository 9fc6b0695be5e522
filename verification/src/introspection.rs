//! A local `SHOW FEATURES`: the features of a layer whose top token holds
//! a filter text and whose score reaches a floor, listed with their top
//! tokens, scores and down outputs.

use vstd::prelude::*;
use crate::lql::string_views;
use crate::remote::LqlError;
use crate::text::{
    chars_of, decimal, owned, push_chars, starts_with, starts_with_at, str_lowercase,
    string_from_chars, u64_decimal,
};
use crate::token_summary::{
    append_pad_left, append_pad_right, dashes, dashes_exec, is_nan_bits, pad_left, pad_right,
    score_key, score_text, score_text_exec,
};

verus! {

/// What the index keeps of a feature: its top token, its score (`f32`
/// bits), and the tokens it writes most (in order).
#[derive(Debug, Clone)]
pub struct FeatureMeta {
    pub top_token: String,
    pub c_score: u32,
    pub top_k: Vec<String>,
}

/// `s` holds `pat` somewhere (`str::contains`).
pub open spec fn contains_text(s: Seq<char>, pat: Seq<char>) -> bool {
    exists|i: int| 0 <= i <= s.len() - pat.len() && #[trigger] starts_with(s.skip(i), pat)
}

/// `a < b` on the `f32` values of the bits: false when either is NaN.
pub open spec fn score_below(a: u32, b: u32) -> bool {
    !is_nan_bits(a) && !is_nan_bits(b) && score_key(a) < score_key(b)
}

/// A feature passes the filters: its top token, lowercased, holds the
/// lowercased filter text, and its score is not below the floor.
pub open spec fn feature_passes(m: FeatureMeta, filter: Option<Seq<char>>, floor: Option<u32>) -> bool {
    &&& match filter {
        Some(tf) => contains_text(str_lowercase(m.top_token@), str_lowercase(tf)),
        None => true,
    }
    &&& match floor {
        Some(f) => !score_below(m.c_score, f),
        None => true,
    }
}

/// The features of the layer that have metadata and pass the filters,
/// with their indices, in order.
pub open spec fn passing_features(
    fs: Seq<Option<FeatureMeta>>,
    filter: Option<Seq<char>>,
    floor: Option<u32>,
) -> Seq<(nat, FeatureMeta)>
    decreases fs.len(),
{
    if fs.len() == 0 {
        Seq::empty()
    } else {
        let prev = passing_features(fs.drop_last(), filter, floor);
        match fs.last() {
            Some(m) => if feature_passes(m, filter, floor) {
                prev.push(((fs.len() - 1) as nat, m))
            } else {
                prev
            },
            None => prev,
        }
    }
}

/// The cells of a feature line: `{:<8} {:<20} {:>10} {:>30}`.
pub open spec fn feature_cells(a: Seq<char>, b: Seq<char>, c: Seq<char>, d: Seq<char>) -> Seq<char> {
    pad_right(a, 8) + " "@ + pad_right(b, 20) + " "@ + pad_left(c, 10) + " "@ + pad_left(d, 30)
}

/// The tokens a feature writes most, the first five, joined by `", "`.
pub open spec fn down_outputs(m: FeatureMeta) -> Seq<char> {
    crate::lql::join(
        string_views(m.top_k@).take(
            if m.top_k@.len() < 5 {
                m.top_k@.len() as int
            } else {
                5
            },
        ),
        ", "@,
    )
}

/// The line of a feature: `F` and its index, its top token, its score to
/// four places and its down outputs.
pub open spec fn feature_line(f: (nat, FeatureMeta)) -> Seq<char> {
    "F"@ + pad_right(decimal(f.0), 7) + " "@ + pad_right(f.1.top_token@, 20) + " "@ + pad_left(
        score_text(f.1.c_score),
        10,
    ) + " "@ + pad_left(down_outputs(f.1), 30)
}

/// A local `SHOW FEATURES` of a layer with features: the header, a rule,
/// and the first `limit` features that pass the filters.
pub open spec fn features_lines(
    fs: Seq<Option<FeatureMeta>>,
    filter: Option<Seq<char>>,
    floor: Option<u32>,
    limit: nat,
) -> Seq<Seq<char>> {
    let shown = passing_features(fs, filter, floor);
    seq![feature_cells("Feature"@, "Top Token"@, "Score"@, "Down outputs"@), dashes(72)] + shown.take(
        if shown.len() < limit {
            shown.len() as int
        } else {
            limit as int
        },
    ).map_values(|f: (nat, FeatureMeta)| feature_line(f))
}

/// How many features a local `SHOW FEATURES` lists: the `LIMIT`, else as
/// many as the model has layers (cut to 32 bits, as the count is taken as
/// a `u32`).
pub fn features_limit(limit: Option<u32>, num_layers: usize) -> (r: usize)
    ensures
        r == match limit {
            Some(l) => l as usize,
            None => (num_layers as u32) as usize,
        },
{
    match limit {
        Some(l) => l as usize,
        None => {
            #[verifier::truncate]
            let n = num_layers as u32;
            n as usize
        },
    }
}

/// Whether `s` holds `pat` (`contains_text`).
pub(crate) fn contains_chars(s: &[char], pat: &[char]) -> (r: bool)
    ensures
        r == contains_text(s@, pat@),
{
    if pat.len() > s.len() {
        assert forall|i: int| 0 <= i <= s@.len() - pat@.len() implies !starts_with(
            #[trigger] s@.skip(i),
            pat@,
        ) by {}
        return false;
    }
    let last = s.len() - pat.len();
    let mut i: usize = 0;
    loop
        invariant
            pat@.len() <= s@.len(),
            last == s@.len() - pat@.len(),
            i <= last,
            forall|j: int| 0 <= j < i ==> !starts_with(#[trigger] s@.skip(j), pat@),
        decreases last - i,
    {
        if starts_with_at(s, i, pat) {
            assert(s@.skip(i as int).take(pat@.len() as int) == pat@);
            assert(starts_with(s@.skip(i as int), pat@));
            return true;
        }
        assert(!starts_with(s@.skip(i as int), pat@)) by {
            if starts_with(s@.skip(i as int), pat@) {
                assert(s@.skip(i as int).take(pat@.len() as int) == pat@);
            }
        }
        if i == last {
            return false;
        }
        i = i + 1;
    }
}

pub(crate) fn score_below_exec(a: u32, b: u32) -> (r: bool)
    ensures
        r == score_below(a, b),
{
    let nan_a = (a / 0x80_0000) % 0x100 == 0xFF && a % 0x80_0000 != 0;
    let nan_b = (b / 0x80_0000) % 0x100 == 0xFF && b % 0x80_0000 != 0;
    let ka: u64 = if a < 0x8000_0000 {
        0x8000_0000 + a as u64
    } else {
        0x8000_0000 - (a - 0x8000_0000) as u64
    };
    let kb: u64 = if b < 0x8000_0000 {
        0x8000_0000 + b as u64
    } else {
        0x8000_0000 - (b - 0x8000_0000) as u64
    };
    !nan_a && !nan_b && ka < kb
}

pub(crate) fn feature_cells_exec(a: &str, b: &str, c: &str, d: &str) -> (r: String)
    ensures
        r@ == feature_cells(a@, b@, c@, d@),
{
    let mut out = String::new();
    append_pad_right(&mut out, a, 8);
    out.append(" ");
    append_pad_right(&mut out, b, 20);
    out.append(" ");
    append_pad_left(&mut out, c, 10);
    out.append(" ");
    append_pad_left(&mut out, d, 30);
    out
}

fn down_outputs_exec(m: &FeatureMeta) -> (r: String)
    ensures
        r@ == down_outputs(*m),
{
    let n: usize = if m.top_k.len() < 5 {
        m.top_k.len()
    } else {
        5
    };
    let ghost sv = string_views(m.top_k@).take(n as int);
    let mut out = String::new();
    let mut i: usize = 0;
    while i < n
        invariant
            i <= n,
            n <= m.top_k@.len(),
            sv == string_views(m.top_k@).take(n as int),
            out@ == crate::lql::join(sv.take(i as int), ", "@),
        decreases n - i,
    {
        if i > 0 {
            out.append(", ");
        }
        out.append(m.top_k[i].as_str());
        proof {
            let t = sv.take(i + 1);
            assert(t.drop_last() == sv.take(i as int));
            assert(t.last() == m.top_k@[i as int]@);
            if i == 0 {
                assert(crate::lql::join(t, ", "@) == t[0]);
            }
        }
        i = i + 1;
    }
    assert(sv.take(n as int) == sv);
    out
}

fn feature_line_exec(idx: usize, m: &FeatureMeta) -> (r: String)
    ensures
        r@ == feature_line((idx as nat, *m)),
{
    let mut out = owned("F");
    let n = string_from_chars(u64_decimal(idx as u64).as_slice());
    append_pad_right(&mut out, n.as_str(), 7);
    out.append(" ");
    append_pad_right(&mut out, m.top_token.as_str(), 20);
    out.append(" ");
    let score = score_text_exec(m.c_score);
    append_pad_left(&mut out, score.as_str(), 10);
    out.append(" ");
    let down = down_outputs_exec(m);
    append_pad_left(&mut out, down.as_str(), 30);
    out
}

/// A local `SHOW FEATURES` of a layer (`features_lines`): the first
/// `limit` features whose top token holds the filter text (both
/// lowercased) and whose score is not below the floor; an error when the
/// layer has no features.
pub fn show_features_lines(
    layer: u32,
    features: &Vec<Option<FeatureMeta>>,
    filter: Option<&str>,
    floor: Option<u32>,
    limit: usize,
) -> (r: Result<Vec<String>, LqlError>)
    ensures
        features@.len() == 0 ==> (r matches Err(LqlError::Execution(m)) && m@ == "no features at layer "@
            + decimal(layer as nat)),
        features@.len() > 0 ==> (r matches Ok(lines) && string_views(lines@) == features_lines(
            features@,
            match filter {
                Some(f) => Some(f@),
                None => None,
            },
            floor,
            limit as nat,
        )),
{
    if features.len() == 0 {
        let mut m = owned("no features at layer ");
        push_chars(&mut m, u64_decimal(layer as u64).as_slice());
        return Err(LqlError::Execution(m));
    }
    let ghost fv: Option<Seq<char>> = match filter {
        Some(f) => Some(f@),
        None => None,
    };
    let lowered_filter: Option<Vec<char>> = match filter {
        Some(f) => Some(chars_of(crate::text::lowercase(f).as_str())),
        None => None,
    };
    let mut out: Vec<String> = Vec::new();
    out.push(feature_cells_exec("Feature", "Top Token", "Score", "Down outputs"));
    out.push(dashes_exec(72));
    let ghost head = string_views(out@);
    let mut count: usize = 0;
    let mut i: usize = 0;
    while i < features.len() && count < limit
        invariant
            i <= features@.len(),
            count <= limit,
            fv == match filter {
                Some(f) => Some(f@),
                None => None::<Seq<char>>,
            },
            match lowered_filter {
                Some(lf) => fv matches Some(f) && lf@ == str_lowercase(f),
                None => fv is None,
            },
            count == passing_features(features@.take(i as int), fv, floor).len(),
            string_views(out@) == head + passing_features(features@.take(i as int), fv, floor).map_values(
                |f: (nat, FeatureMeta)| feature_line(f),
            ),
        decreases features.len() - i,
    {
        let ghost pre = features@.take(i as int);
        let ghost prev_lines = string_views(out@);
        assert(features@.take(i + 1).drop_last() == pre);
        assert(features@.take(i + 1).last() == features@[i as int]);
        assert(features@.take(i + 1).len() - 1 == i);
        match &features[i] {
            Some(m) => {
                let token_ok = match &lowered_filter {
                    Some(lf) => {
                        let lt = chars_of(crate::text::lowercase(m.top_token.as_str()).as_str());
                        contains_chars(lt.as_slice(), lf.as_slice())
                    },
                    None => true,
                };
                let score_ok = match floor {
                    Some(f) => !score_below_exec(m.c_score, f),
                    None => true,
                };
                if token_ok && score_ok {
                    let line = feature_line_exec(i, m);
                    out.push(line);
                    proof {
                        let p = passing_features(pre, fv, floor);
                        assert(string_views(out@) =~= prev_lines.push(feature_line((i as nat, *m))));
                        assert(p.push((i as nat, *m)).map_values(|f: (nat, FeatureMeta)| feature_line(f))
                            =~= p.map_values(|f: (nat, FeatureMeta)| feature_line(f)).push(
                            feature_line((i as nat, *m)),
                        ));
                    }
                    count = count + 1;
                }
            },
            None => {},
        }
        i = i + 1;
    }
    proof {
        let all = passing_features(features@, fv, floor);
        let part = passing_features(features@.take(i as int), fv, floor);
        lemma_passing_prefix(features@, i as int, fv, floor);
        if i == features.len() {
            assert(features@.take(i as int) == features@);
        }
        let k: int = if all.len() < limit {
            all.len() as int
        } else {
            limit as int
        };
        assert(all.take(k) == part);
        assert(string_views(out@) =~= features_lines(features@, fv, floor, limit as nat));
    }
    Ok(out)
}

/// The features passing among the first `k` are the first of those
/// passing among all.
proof fn lemma_passing_prefix(
    fs: Seq<Option<FeatureMeta>>,
    k: int,
    filter: Option<Seq<char>>,
    floor: Option<u32>,
)
    requires
        0 <= k <= fs.len(),
    ensures
        passing_features(fs.take(k), filter, floor).len() <= passing_features(fs, filter, floor).len(),
        passing_features(fs, filter, floor).take(passing_features(fs.take(k), filter, floor).len() as int)
            == passing_features(fs.take(k), filter, floor),
    decreases fs.len() - k,
{
    if k < fs.len() {
        lemma_passing_prefix(fs.drop_last(), k, filter, floor);
        assert(fs.drop_last().take(k) == fs.take(k));
        let p = passing_features(fs.drop_last(), filter, floor);
        let n = passing_features(fs.take(k), filter, floor).len() as int;
        let all = passing_features(fs, filter, floor);
        assert(all == p || all == p.push(all.last()));
        if all != p {
            assert(all.take(n) == p.take(n));
        }
    } else {
        assert(fs.take(k) == fs);
    }
}

} // verus!
