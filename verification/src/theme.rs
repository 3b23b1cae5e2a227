//! Report line rendering with consistent ANSI coloring. Two themes share one
//! structure and differ in profile and crate-name color: one for artifacts in
//! use, one for artifacts about to be removed. Extensions and profiles get
//! stable colors from fixed palettes, picked by a wrapping byte sum of the
//! name.

use vstd::prelude::*;
use vstd::string::*;

use crate::naming::{display_lib_prefix, ext_split_at, hash_split_at};
use crate::render::{dec_str, format_bytes, format_bytes_spec, u64_to_string};
use crate::strings::{
    dedup_adjacent, dedup_string_list, find_first, find_last, join_string_list, join_with,
    sort_string_list, sort_strings, str_eq,
};

verus! {

/// 64-bit wrapping addition.
pub open spec fn wrap_add64(a: u64, b: u64) -> u64 {
    if a + b > u64::MAX {
        (a + b - 0x10000000000000000) as u64
    } else {
        (a + b) as u64
    }
}

/// The wrapping sum of a byte sequence, the stable hash both palettes key on.
pub open spec fn byte_hash(bs: Seq<u8>) -> u64
    decreases bs.len(),
{
    if bs.len() == 0 {
        0
    } else {
        wrap_add64(byte_hash(bs.drop_last()), bs.last() as u64)
    }
}

/// The wrapping byte sum of a string's UTF-8 form.
fn str_byte_hash(s: &str) -> (r: u64)
    ensures
        r == byte_hash(s.spec_bytes()),
{
    let bytes = s.as_bytes_vec();
    let n = bytes.len();
    let mut acc: u64 = 0;
    let mut i: usize = 0;
    proof {
        assert(bytes@.take(0) =~= Seq::<u8>::empty());
    }
    while i < n
        invariant
            0 <= i <= n,
            n == bytes@.len(),
            bytes@ == s.spec_bytes(),
            acc == byte_hash(bytes@.take(i as int)),
        decreases n - i,
    {
        proof {
            assert(bytes@.take(i as int + 1).drop_last() =~= bytes@.take(i as int));
            assert(bytes@.take(i as int + 1).last() == bytes@[i as int]);
        }
        acc = acc.wrapping_add(bytes[i] as u64);
        i += 1;
    }
    proof {
        assert(bytes@.take(n as int) =~= bytes@);
    }
    acc
}

/// The fallback color for an extension outside the palette, by hash.
pub open spec fn fallback_ext_color(h: u64) -> Seq<char> {
    if h % 4 == 0 {
        "\x1b[38;5;156m"@
    } else if h % 4 == 1 {
        "\x1b[38;5;215m"@
    } else if h % 4 == 2 {
        "\x1b[38;5;219m"@
    } else {
        "\x1b[38;5;159m"@
    }
}

/// The color of an extension: a fixed palette for the known artifact
/// extensions, a stable hashed fallback otherwise.
pub open spec fn ext_color_of(e: Seq<char>) -> Seq<char> {
    if e == "rlib"@ {
        "\x1b[38;5;75m"@
    } else if e == "rmeta"@ {
        "\x1b[38;5;110m"@
    } else if e == "so"@ {
        "\x1b[38;5;141m"@
    } else if e == "dylib"@ {
        "\x1b[38;5;179m"@
    } else if e == "dll"@ {
        "\x1b[38;5;167m"@
    } else if e == "dwo"@ {
        "\x1b[38;5;246m"@
    } else if e == "o"@ {
        "\x1b[38;5;244m"@
    } else if e == "d"@ {
        "\x1b[38;5;241m"@
    } else {
        fallback_ext_color(byte_hash(vstd::utf8::encode_utf8(e)))
    }
}

/// The ANSI color for one extension.
pub fn ext_color(ext: &str) -> (r: &'static str)
    ensures
        r@ == ext_color_of(ext@),
{
    if str_eq(ext, "rlib") {
        "\x1b[38;5;75m"
    } else if str_eq(ext, "rmeta") {
        "\x1b[38;5;110m"
    } else if str_eq(ext, "so") {
        "\x1b[38;5;141m"
    } else if str_eq(ext, "dylib") {
        "\x1b[38;5;179m"
    } else if str_eq(ext, "dll") {
        "\x1b[38;5;167m"
    } else if str_eq(ext, "dwo") {
        "\x1b[38;5;246m"
    } else if str_eq(ext, "o") {
        "\x1b[38;5;244m"
    } else if str_eq(ext, "d") {
        "\x1b[38;5;241m"
    } else {
        let h = str_byte_hash(ext);
        let m = h % 4;
        if m == 0 {
            "\x1b[38;5;156m"
        } else if m == 1 {
            "\x1b[38;5;215m"
        } else if m == 2 {
            "\x1b[38;5;219m"
        } else {
            "\x1b[38;5;159m"
        }
    }
}

/// The color of a profile name, from an eight-entry palette, by hash.
pub open spec fn profile_color_of(p: Seq<char>) -> Seq<char> {
    let h = byte_hash(vstd::utf8::encode_utf8(p));
    if h % 8 == 0 {
        "\x1b[38;5;78m"@
    } else if h % 8 == 1 {
        "\x1b[38;5;75m"@
    } else if h % 8 == 2 {
        "\x1b[38;5;141m"@
    } else if h % 8 == 3 {
        "\x1b[38;5;215m"@
    } else if h % 8 == 4 {
        "\x1b[38;5;156m"@
    } else if h % 8 == 5 {
        "\x1b[38;5;219m"@
    } else if h % 8 == 6 {
        "\x1b[38;5;159m"@
    } else {
        "\x1b[38;5;179m"@
    }
}

/// A stable ANSI color for a profile name.
pub fn profile_color(profile: &str) -> (r: &'static str)
    ensures
        r@ == profile_color_of(profile@),
{
    let h = str_byte_hash(profile);
    let m = h % 8;
    if m == 0 {
        "\x1b[38;5;78m"
    } else if m == 1 {
        "\x1b[38;5;75m"
    } else if m == 2 {
        "\x1b[38;5;141m"
    } else if m == 3 {
        "\x1b[38;5;215m"
    } else if m == 4 {
        "\x1b[38;5;156m"
    } else if m == 5 {
        "\x1b[38;5;219m"
    } else if m == 6 {
        "\x1b[38;5;159m"
    } else {
        "\x1b[38;5;179m"
    }
}

/// The coloring of one report line: the profile segment's color, the crate
/// name's color, and an optional icon that replaces the numeric index.
pub struct Theme {
    pub profile: &'static str,
    pub crate_name: &'static str,
    pub line_icon: Option<&'static str>,
}

/// The theme of artifacts confirmed in use: green profile, bold cyan crate
/// name, numbered lines.
pub fn in_use_theme() -> (r: Theme)
    ensures
        r.profile@ == "\x1b[38;5;78m"@,
        r.crate_name@ == "\x1b[1;96m"@,
        r.line_icon is None,
{
    Theme { profile: "\x1b[38;5;78m", crate_name: "\x1b[1;96m", line_icon: None }
}

/// The theme of artifacts about to be removed: orange profile, bold yellow
/// crate name, a red bin icon instead of the index.
pub fn to_remove_theme() -> (r: Theme)
    ensures
        r.profile@ == "\x1b[38;5;208m"@,
        r.crate_name@ == "\x1b[1;93m"@,
        (r.line_icon matches Some(icon) && icon@ == "\x1b[31m\u{1f5d1}\x1b[0m "@),
{
    Theme { profile: "\x1b[38;5;208m", crate_name: "\x1b[1;93m", line_icon: Some(
        "\x1b[31m\u{1f5d1}\x1b[0m ",
    ) }
}

/// The colored rendering of one artifact filename: dim `lib` prefix, themed
/// crate name, dim hash, extension chain in the color of its last component.
/// The splits are those of [`parse_artifact`][crate::naming::parse_artifact].
pub open spec fn colored_name_spec(filename: Seq<char>, crate_color: Seq<char>) -> Seq<char> {
    let rest = if display_lib_prefix(filename) {
        filename.skip(3)
    } else {
        filename
    };
    let stem = match ext_split_at(rest) {
        Some(i) => rest.take(i),
        None => rest,
    };
    let lib_part = if display_lib_prefix(filename) {
        "\x1b[2m"@ + "lib"@ + "\x1b[0m"@
    } else {
        Seq::<char>::empty()
    };
    let crate_part = match hash_split_at(stem) {
        Some(i) => crate_color + stem.take(i) + "\x1b[0m"@ + "\x1b[38;5;245m"@ + "-"@ + "\x1b[0m"@
            + "\x1b[38;5;242m"@ + stem.skip(i + 1) + "\x1b[0m"@,
        None => crate_color + stem + "\x1b[0m"@,
    };
    let ext_part = match ext_split_at(rest) {
        Some(i) => {
            let ext = rest.skip(i + 1);
            let key = match ext.index_of_last('.') {
                Some(j) => ext.skip(j + 1),
                None => ext,
            };
            "\x1b[2m"@ + "."@ + "\x1b[0m"@ + ext_color_of(key) + ext + "\x1b[0m"@
        },
        None => Seq::<char>::empty(),
    };
    lib_part + crate_part + ext_part
}

/// The colored filename part of a line.
/// The colored crate-name-and-hash part of one stem.
#[verifier::spinoff_prover]
fn colored_stem_part(stem: &str, crate_color: &str) -> (r: String)
    ensures
        r@ == match hash_split_at(stem@) {
            Some(i) => crate_color@ + stem@.take(i) + "\x1b[0m"@ + "\x1b[38;5;245m"@ + "-"@
                + "\x1b[0m"@ + "\x1b[38;5;242m"@ + stem@.skip(i + 1) + "\x1b[0m"@,
            None => crate_color@ + stem@ + "\x1b[0m"@,
        },
{
    let mut out = String::new();
    let sn = stem.unicode_len();
    let dash = match find_last(stem, '-') {
        Some(i) => if i > 0 {
            Some(i)
        } else {
            None
        },
        None => None,
    };
    match dash {
        Some(i) => {
            out.append(crate_color);
            out.append(stem.substring_char(0, i));
            out.append("\x1b[0m");
            out.append("\x1b[38;5;245m");
            out.append("-");
            out.append("\x1b[0m");
            out.append("\x1b[38;5;242m");
            out.append(stem.substring_char(i + 1, sn));
            out.append("\x1b[0m");
            proof {
                assert(out@ =~= crate_color@ + stem@.take(i as int) + "\x1b[0m"@
                    + "\x1b[38;5;245m"@ + "-"@ + "\x1b[0m"@ + "\x1b[38;5;242m"@ + stem@.skip(
                    i as int + 1,
                ) + "\x1b[0m"@);
            }
        },
        None => {
            out.append(crate_color);
            out.append(stem);
            out.append("\x1b[0m");
            proof {
                assert(out@ =~= crate_color@ + stem@ + "\x1b[0m"@);
            }
        },
    }
    out
}

/// The colored extension-chain part of one filename.
#[verifier::spinoff_prover]
fn colored_ext_part(e: &str) -> (r: String)
    ensures
        r@ == ({
            let key = match e@.index_of_last('.') {
                Some(j) => e@.skip(j + 1),
                None => e@,
            };
            "\x1b[2m"@ + "."@ + "\x1b[0m"@ + ext_color_of(key) + e@ + "\x1b[0m"@
        }),
{
    let mut out = String::new();
    let en = e.unicode_len();
    let key = match find_last(e, '.') {
        Some(j) => e.substring_char(j + 1, en),
        None => e,
    };
    out.append("\x1b[2m");
    out.append(".");
    out.append("\x1b[0m");
    out.append(ext_color(key));
    out.append(e);
    out.append("\x1b[0m");
    proof {
        assert(out@ =~= "\x1b[2m"@ + "."@ + "\x1b[0m"@ + ext_color_of(key@) + e@ + "\x1b[0m"@);
    }
    out
}

#[verifier::rlimit(100)]
#[verifier::spinoff_prover]
fn colored_name(filename: &str, crate_color: &str) -> (r: String)
    ensures
        r@ == colored_name_spec(filename@, crate_color@),
{
    let n = filename.unicode_len();
    let lib_prefix = n > 3 && filename.get_char(0) == 'l' && filename.get_char(1) == 'i'
        && filename.get_char(2) == 'b';
    let rest = if lib_prefix {
        filename.substring_char(3, n)
    } else {
        filename
    };
    let ghost spec_rest = rest@;
    let ghost lib_part = if display_lib_prefix(filename@) {
        "\x1b[2m"@ + "lib"@ + "\x1b[0m"@
    } else {
        Seq::<char>::empty()
    };
    let rn = rest.unicode_len();
    let mut out = String::new();
    if lib_prefix {
        out.append("\x1b[2m");
        out.append("lib");
        out.append("\x1b[0m");
    }
    proof {
        assert(out@ =~= lib_part);
    }
    let (stem, ext) = if rn <= 1 {
        (rest, None)
    } else {
        let tail = rest.substring_char(1, rn);
        proof {
            assert(tail@ =~= rest@.skip(1));
        }
        match find_first(tail, '.') {
            Some(i) => (rest.substring_char(0, i + 1), Some(rest.substring_char(i + 2, rn))),
            None => (rest, None),
        }
    };
    proof {
        assert(stem@ == match ext_split_at(spec_rest) {
            Some(i) => spec_rest.take(i),
            None => spec_rest,
        });
    }
    let stem_part = colored_stem_part(stem, crate_color);
    out.append(stem_part.as_str());
    match ext {
        Some(e) => {
            let ext_part = colored_ext_part(e);
            out.append(ext_part.as_str());
        },
        None => {},
    }
    proof {
        assert(out@ =~= colored_name_spec(filename@, crate_color@));
    }
    out
}

/// A number right-aligned to three columns with spaces.
pub open spec fn pad3(s: Seq<char>) -> Seq<char> {
    if s.len() >= 3 {
        s
    } else if s.len() == 2 {
        " "@ + s
    } else {
        "  "@ + s
    }
}

/// The annotation naming an artifact's consumers: sorted, deduplicated, at
/// most three shown, the rest counted.
pub open spec fn used_by_spec(users: Seq<Seq<char>>) -> Seq<char> {
    let shown = dedup_adjacent(sort_strings(users)).take(
        if dedup_adjacent(sort_strings(users)).len() < 3 {
            dedup_adjacent(sort_strings(users)).len() as int
        } else {
            3
        },
    );
    let suffix = if users.len() > 3 {
        ", +"@ + dec_str(users.len() - 3)
    } else {
        Seq::<char>::empty()
    };
    " "@ + "\x1b[2m"@ + "\u{2190} "@ + join_with(shown, ", "@) + suffix + "\x1b[0m"@
}

/// The consumer annotation of one in-use line.
#[verifier::rlimit(60)]
#[verifier::spinoff_prover]
fn used_by_annotation(users: &Vec<String>) -> (r: String)
    ensures
        r@ == used_by_spec(users.deep_view()),
{
    let mut out = String::new();
    out.append(" ");
    out.append("\x1b[2m");
    out.append("\u{2190} ");
    let sorted = sort_string_list(users);
    let deduped = dedup_string_list(&sorted);
    let shown_n = if deduped.len() < 3 {
        deduped.len()
    } else {
        3
    };
    let mut shown: Vec<String> = Vec::new();
    let mut i: usize = 0;
    proof {
        assert(shown.deep_view() =~= deduped.deep_view().take(0));
    }
    while i < shown_n
        invariant
            0 <= i <= shown_n,
            shown_n <= deduped@.len(),
            shown.deep_view() == deduped.deep_view().take(i as int),
        decreases shown_n - i,
    {
        let x = deduped[i].clone();
        let ghost xv = x@;
        let ghost shown_old = shown.deep_view();
        shown.push(x);
        proof {
            assert(xv == deduped.deep_view()[i as int]);
            assert(shown.deep_view() =~= shown_old.push(xv));
            assert(shown_old.push(xv) =~= deduped.deep_view().take(i as int + 1));
        }
        i += 1;
    }
    proof {
        assert(shown.deep_view() =~= dedup_adjacent(sort_strings(users.deep_view())).take(
            if dedup_adjacent(sort_strings(users.deep_view())).len() < 3 {
                dedup_adjacent(sort_strings(users.deep_view())).len() as int
            } else {
                3
            },
        ));
    }
    let joined = join_string_list(&shown, ", ");
    out.append(joined.as_str());
    if users.len() > 3 {
        out.append(", +");
        let extra = u64_to_string((users.len() - 3) as u64);
        out.append(extra.as_str());
    }
    out.append("\x1b[0m");
    proof {
        assert(out@ =~= used_by_spec(users.deep_view()));
    }
    out
}

/// What one rendered artifact line says, piece by piece: the index or icon,
/// the colored profile, the colored filename, the size, and the optional
/// consumer annotation.
pub open spec fn artifact_line_spec(
    index: int,
    profile: Seq<char>,
    filename: Seq<char>,
    size: u64,
    used_by: Option<Seq<Seq<char>>>,
    theme_profile: Seq<char>,
    theme_crate: Seq<char>,
    theme_icon: Option<Seq<char>>,
) -> Seq<char> {
    let index_part = match theme_icon {
        Some(icon) => "  "@ + icon,
        None => "  "@ + "\x1b[2m"@ + pad3(dec_str(index)) + "."@ + "\x1b[0m"@,
    };
    let used_part = match used_by {
        Some(users) => used_by_spec(users),
        None => Seq::<char>::empty(),
    };
    index_part + " "@ + theme_profile + profile + "\x1b[0m"@ + " "@ + colored_name_spec(
        filename,
        theme_crate,
    ) + " "@ + "\x1b[32m"@ + "("@ + format_bytes_spec(size) + ")"@ + "\x1b[0m"@ + used_part
}

/// Renders one artifact line: index or icon, colored profile and filename,
/// size, and — for in-use lines — which units consumed the artifact, sorted,
/// deduplicated and truncated to three.
#[verifier::rlimit(80)]
pub fn format_artifact_line(
    index: usize,
    profile: &str,
    filename: &str,
    size: u64,
    used_by: Option<&Vec<String>>,
    theme: &Theme,
) -> (r: String)
    ensures
        r@ == artifact_line_spec(
            index as int,
            profile@,
            filename@,
            size,
            match used_by {
                Some(u) => Some(u.deep_view()),
                None => None,
            },
            theme.profile@,
            theme.crate_name@,
            match theme.line_icon {
                Some(icon) => Some(icon@),
                None => None,
            },
        ),
{
    let ghost index_part = match theme.line_icon {
        Some(icon) => "  "@ + icon@,
        None => "  "@ + "\x1b[2m"@ + pad3(dec_str(index as int)) + "."@ + "\x1b[0m"@,
    };
    let mut out = String::new();
    out.append("  ");
    match theme.line_icon {
        Some(icon) => {
            out.append(icon);
        },
        None => {
            out.append("\x1b[2m");
            let num = u64_to_string(index as u64);
            let ln = num.unicode_len();
            if ln == 2 {
                out.append(" ");
            } else if ln < 2 {
                out.append("  ");
            }
            out.append(num.as_str());
            out.append(".");
            out.append("\x1b[0m");
        },
    }
    proof {
        assert(out@ =~= index_part);
    }
    out.append(" ");
    out.append(theme.profile);
    out.append(profile);
    out.append("\x1b[0m");
    out.append(" ");
    let ghost head = index_part + " "@ + theme.profile@ + profile@ + "\x1b[0m"@ + " "@;
    proof {
        assert(out@ =~= head);
    }
    let name = colored_name(filename, theme.crate_name);
    out.append(name.as_str());
    out.append(" ");
    out.append("\x1b[32m");
    out.append("(");
    let sz = format_bytes(size);
    out.append(sz.as_str());
    out.append(")");
    out.append("\x1b[0m");
    let ghost head2 = head + colored_name_spec(filename@, theme.crate_name@) + " "@ + "\x1b[32m"@
        + "("@ + format_bytes_spec(size) + ")"@ + "\x1b[0m"@;
    proof {
        assert(out@ =~= head2);
    }
    match used_by {
        Some(users) => {
            let ann = used_by_annotation(users);
            out.append(ann.as_str());
            proof {
                assert(out@ =~= head2 + used_by_spec(users.deep_view()));
            }
        },
        None => {},
    }
    proof {
        assert(out@ =~= artifact_line_spec(
            index as int,
            profile@,
            filename@,
            size,
            match used_by {
                Some(u) => Some(u.deep_view()),
                None => None::<Seq<Seq<char>>>,
            },
            theme.profile@,
            theme.crate_name@,
            match theme.line_icon {
                Some(icon) => Some(icon@),
                None => None::<Seq<char>>,
            },
        ));
    }
    out
}

/// What the trailer line says.
pub open spec fn more_line_spec(remaining: int, label: Seq<char>) -> Seq<char> {
    "  "@ + "\x1b[2m"@ + "  \u{2026} and "@ + dec_str(remaining) + " more "@ + label + "\x1b[0m"@
}

/// Renders the `… and N more` trailer under a truncated listing.
pub fn format_more_line(remaining: usize, label: &str) -> (r: String)
    ensures
        r@ == more_line_spec(remaining as int, label@),
{
    let mut out = String::new();
    out.append("  ");
    out.append("\x1b[2m");
    out.append("  \u{2026} and ");
    let num = u64_to_string(remaining as u64);
    out.append(num.as_str());
    out.append(" more ");
    out.append(label);
    out.append("\x1b[0m");
    proof {
        assert(out@ =~= more_line_spec(remaining as int, label@));
    }
    out
}

} // verus!
