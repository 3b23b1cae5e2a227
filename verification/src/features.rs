//! Feature detection from the build tool's fingerprint files. Each
//! fingerprint is a line of JSON whose `features` field holds, as a string,
//! the JSON array of feature names the last build used. The JSON reading goes
//! through `serde_json`; everything around it — dropping the implicit
//! `default`, telling the still-available features from the outdated ones,
//! ordering and joining them — is the library's own, verified logic.

use vstd::prelude::*;

use crate::strings::{
    dedup_adjacent, dedup_string_list, join_string_list, join_with, sort_string_list,
    sort_strings, str_eq, string_list_contains,
};
use vstd::string::*;

verus! {

/// The feature names a fingerprint line carries: present exactly when the
/// line parses as JSON whose `features` field holds, as a string, a JSON
/// array of strings. What that reading yields depends on the line's
/// characters alone, so it bears a name rather than a transcription of the
/// JSON grammar.
pub uninterp spec fn line_features(line: Seq<char>) -> Option<Seq<Seq<char>>>;

/// Relies on `serde_json::from_str` and `Value::get`/`Value::as_str`: reads
/// the feature names out of one fingerprint line — the JSON document's
/// `features` field, itself a JSON array of strings — or nothing when the
/// line does not have that shape. The result is a function of the line alone.
#[verifier::external_body]
fn fingerprint_features(line: &str) -> (r: Option<Vec<String>>)
    ensures
        r.deep_view() == line_features(line@),
{
    let v: serde_json::Value = serde_json::from_str(line).ok()?;
    let s = v.get("features")?.as_str()?;
    serde_json::from_str(s).ok()
}

/// How a traced build's feature flags are set: everything, nothing implicit,
/// a named list, or the default.
pub struct FeatureConfig {
    /// Build with every feature.
    pub all_features: bool,
    /// Build without the default features.
    pub no_default_features: bool,
    /// Build with exactly these features, comma-separated.
    pub features: Option<String>,
}

impl Default for FeatureConfig {
    /// The default configuration: no flags at all.
    fn default() -> (r: FeatureConfig)
        ensures
            !r.all_features,
            !r.no_default_features,
            r.features is None,
    {
        FeatureConfig { all_features: false, no_default_features: false, features: None }
    }
}

impl FeatureConfig {
    /// Whether this is the default configuration: no flag set, no feature
    /// list given.
    pub fn is_default(&self) -> (r: bool)
        ensures
            r == (!self.all_features && !self.no_default_features && self.features is None),
    {
        !self.all_features && !self.no_default_features && match self.features {
            Some(_) => false,
            None => true,
        }
    }
}

/// The detected features that still exist, each once, ascending: the
/// implicit `default` dropped, names outside `available` dropped.
pub open spec fn valid_features(detected: Seq<Seq<char>>, available: Seq<Seq<char>>) -> Seq<
    Seq<char>,
> {
    dedup_adjacent(
        sort_strings(
            detected.filter(|x: Seq<char>| x != "default"@ && available.contains(x)),
        ),
    )
}

/// The detected features that no longer exist, each once, ascending.
pub open spec fn invalid_features(detected: Seq<Seq<char>>, available: Seq<Seq<char>>) -> Seq<
    Seq<char>,
> {
    dedup_adjacent(
        sort_strings(
            detected.filter(|x: Seq<char>| x != "default"@ && !available.contains(x)),
        ),
    )
}

/// Resolves a detected feature set against the features that currently
/// exist: the first result is the configuration to trace with — the default
/// one when nothing beyond `default` survives, otherwise exactly the
/// surviving names, ascending and comma-separated — and the second is the
/// outdated names, ascending, for the caller to warn about.
pub fn resolve_features(detected: &Vec<String>, available: &Vec<String>) -> (r: (
    FeatureConfig,
    Vec<String>,
))
    ensures
        r.1.deep_view() == invalid_features(detected.deep_view(), available.deep_view()),
        !r.0.all_features,
        !r.0.no_default_features,
        r.0.features.deep_view() == ({
            let valid = valid_features(detected.deep_view(), available.deep_view());
            if valid.len() == 0 {
                None::<Seq<char>>
            } else {
                Some(join_with(valid, ","@))
            }
        }),
{
    let ghost dv = detected.deep_view();
    let ghost av = available.deep_view();
    let ghost valid_pred = |x: Seq<char>| x != "default"@ && av.contains(x);
    let ghost invalid_pred = |x: Seq<char>| x != "default"@ && !av.contains(x);
    let mut valid_raw: Vec<String> = Vec::new();
    let mut invalid_raw: Vec<String> = Vec::new();
    let n = detected.len();
    let mut i: usize = 0;
    proof {
        assert(dv.take(0).filter(valid_pred) =~= Seq::<Seq<char>>::empty());
        assert(dv.take(0).filter(invalid_pred) =~= Seq::<Seq<char>>::empty());
        assert(valid_raw.deep_view() =~= Seq::<Seq<char>>::empty());
        assert(invalid_raw.deep_view() =~= Seq::<Seq<char>>::empty());
    }
    while i < n
        invariant
            0 <= i <= n,
            n == detected@.len(),
            dv == detected.deep_view(),
            av == available.deep_view(),
            valid_pred == (|x: Seq<char>| x != "default"@ && av.contains(x)),
            invalid_pred == (|x: Seq<char>| x != "default"@ && !av.contains(x)),
            valid_raw.deep_view() == dv.take(i as int).filter(valid_pred),
            invalid_raw.deep_view() == dv.take(i as int).filter(invalid_pred),
        decreases n - i,
    {
        let x = &detected[i];
        let ghost xv = x@;
        proof {
            assert(dv.take(i as int + 1).drop_last() =~= dv.take(i as int));
            assert(dv.take(i as int + 1).last() == dv[i as int]);
            assert(dv[i as int] == xv);
            reveal(Seq::filter);
        }
        if !str_eq(x.as_str(), "default") {
            let ghost vr_old = valid_raw.deep_view();
            let ghost ir_old = invalid_raw.deep_view();
            if string_list_contains(available, x.as_str()) {
                valid_raw.push(x.clone());
                proof {
                    assert(valid_raw.deep_view() =~= vr_old.push(xv));
                    assert(valid_raw.deep_view() =~= dv.take(i as int + 1).filter(valid_pred));
                    assert(invalid_raw.deep_view() =~= dv.take(i as int + 1).filter(invalid_pred));
                }
            } else {
                invalid_raw.push(x.clone());
                proof {
                    assert(invalid_raw.deep_view() =~= ir_old.push(xv));
                    assert(invalid_raw.deep_view() =~= dv.take(i as int + 1).filter(invalid_pred));
                    assert(valid_raw.deep_view() =~= dv.take(i as int + 1).filter(valid_pred));
                }
            }
        } else {
            proof {
                assert(valid_raw.deep_view() =~= dv.take(i as int + 1).filter(valid_pred));
                assert(invalid_raw.deep_view() =~= dv.take(i as int + 1).filter(invalid_pred));
            }
        }
        i += 1;
    }
    proof {
        assert(dv.take(n as int) =~= dv);
    }
    let valid_sorted = sort_string_list(&valid_raw);
    let valid = dedup_string_list(&valid_sorted);
    let invalid_sorted = sort_string_list(&invalid_raw);
    let invalid = dedup_string_list(&invalid_sorted);
    let config = if valid.len() == 0 {
        FeatureConfig { all_features: false, no_default_features: false, features: None }
    } else {
        let joined = join_string_list(&valid, ",");
        FeatureConfig { all_features: false, no_default_features: false, features: Some(joined) }
    };
    (config, invalid)
}

/// Every feature name the first `n` fingerprint lines carry, in order.
pub open spec fn detected_features(lines: Seq<Seq<char>>, n: int) -> Seq<Seq<char>>
    decreases n,
{
    if n <= 0 {
        Seq::empty()
    } else {
        let prev = detected_features(lines, n - 1);
        match line_features(lines[n - 1]) {
            Some(fs) => prev + fs,
            None => prev,
        }
    }
}

/// Detects the features the last build used from the fingerprint lines of
/// the project's own units, and resolves them against the features that
/// currently exist, exactly as [`resolve_features`] resolves the detected
/// names.
pub fn detect_features(fingerprint_lines: &Vec<String>, available: &Vec<String>) -> (r: (
    FeatureConfig,
    Vec<String>,
))
    ensures
        !r.0.all_features,
        !r.0.no_default_features,
        ({
            let detected = detected_features(
                fingerprint_lines.deep_view(),
                fingerprint_lines.deep_view().len() as int,
            );
            &&& r.1.deep_view() == invalid_features(detected, available.deep_view())
            &&& r.0.features.deep_view() == ({
                let valid = valid_features(detected, available.deep_view());
                if valid.len() == 0 {
                    None::<Seq<char>>
                } else {
                    Some(join_with(valid, ","@))
                }
            })
        }),
{
    let ghost lv = fingerprint_lines.deep_view();
    let mut detected: Vec<String> = Vec::new();
    let n = fingerprint_lines.len();
    let mut i: usize = 0;
    proof {
        assert(detected.deep_view() =~= detected_features(lv, 0));
    }
    while i < n
        invariant
            0 <= i <= n,
            n == fingerprint_lines@.len(),
            lv == fingerprint_lines.deep_view(),
            detected.deep_view() == detected_features(lv, i as int),
        decreases n - i,
    {
        let ghost d_old = detected.deep_view();
        proof {
            assert(lv[i as int] == fingerprint_lines@[i as int]@);
        }
        match fingerprint_features(fingerprint_lines[i].as_str()) {
            Some(mut fs) => {
                let ghost fv = fs.deep_view();
                detected.append(&mut fs);
                proof {
                    assert(detected.deep_view() =~= d_old + fv);
                }
            },
            None => {},
        }
        i += 1;
    }
    resolve_features(&detected, available)
}

} // verus!
