//! On-disk layout of a table directory and the naming of its log files.
//!
//! Log files are named by their version written as twenty decimal digits,
//! zero-padded, followed by `.json`; a commit in progress writes to the same
//! name followed by `.tmp` first.

use crate::text::{
    all_digits, chars_of, decimal_value, digit_char, digit_value, is_digit, parse_u64, push_char,
    push_str, spec_parse_u64, unsigned_digits,
};
use vstd::arithmetic::div_mod::{
    lemma_div_denominator, lemma_div_is_ordered, lemma_fundamental_div_mod, lemma_mod_breakdown,
    lemma_small_mod,
};
use vstd::prelude::*;

verus! {

/// Directory that holds the immutable Parquet data files.
pub const DATA_DIR: &'static str = "data";

/// Directory that holds the versioned transaction log.
pub const LOG_DIR: &'static str = "_log";

/// Directory reserved for checkpoint files.
pub const CHECKPOINT_DIR: &'static str = "_checkpoints";

/// Staging area reserved for commits.
pub const TMPL_DIR: &'static str = "_tmpl";

/// `10` raised to `k`.
pub open spec fn pow10(k: nat) -> nat
    decreases k,
{
    if k == 0 {
        1
    } else {
        10 * pow10((k - 1) as nat)
    }
}

/// The `width` least significant decimal digits of `v`, most significant first,
/// padded with zeros on the left.
pub open spec fn padded_decimal(v: nat, width: nat) -> Seq<char> {
    Seq::new(width, |i: int| digit_char((v / pow10((width - 1 - i) as nat)) % 10))
}

/// The stem of the log file of `version`: its twenty decimal digits.
pub open spec fn spec_format_log_version(version: u64) -> Seq<char> {
    padded_decimal(version as nat, 20)
}

/// The extension of a committed log file.
pub open spec fn json_ext() -> Seq<char> {
    seq!['.', 'j', 's', 'o', 'n']
}

/// The extension of a log file whose commit is still in progress.
pub open spec fn tmp_ext() -> Seq<char> {
    seq!['.', 't', 'm', 'p']
}

/// The name of the committed log file of `version`.
pub open spec fn spec_log_file_name(version: u64) -> Seq<char> {
    spec_format_log_version(version) + json_ext()
}

/// The name under which the log file of `version` is written before it is renamed.
pub open spec fn spec_tmp_log_file_name(version: u64) -> Seq<char> {
    spec_log_file_name(version) + tmp_ext()
}

/// The version that a file name in the log directory denotes, if it denotes one:
/// the name is a stem of exactly twenty ASCII digits followed by `.json`, and
/// the value of the stem fits in a `u64`.
pub open spec fn spec_log_version_of_file_name(name: Seq<char>) -> Option<u64> {
    if name.len() == 25 && name.subrange(20, 25) == json_ext() && all_digits(name.subrange(0, 20)) {
        spec_parse_u64(name.subrange(0, 20))
    } else {
        None
    }
}

proof fn lemma_pow10_positive(k: nat)
    ensures
        pow10(k) > 0,
    decreases k,
{
    if k > 0 {
        lemma_pow10_positive((k - 1) as nat);
    }
}

/// Writes `version` as twenty decimal digits, zero-padded on the left.
pub fn format_log_version(version: u64) -> (s: String)
    ensures
        s@ == spec_format_log_version(version),
{
    let mut s = String::new();
    let mut div: u64 = 10_000_000_000_000_000_000;
    let mut i: usize = 0;
    proof {
        reveal_with_fuel(pow10, 20);
    }
    while i < 20
        invariant
            i <= 20,
            i < 20 ==> div as nat == pow10((19 - i) as nat),
            s@ == spec_format_log_version(version).take(i as int),
        decreases 20 - i,
    {
        proof {
            lemma_pow10_positive((19 - i) as nat);
        }
        let d: u64 = (version / div) % 10;
        let c = ((48u8 + d as u8) as char);
        push_char(&mut s, c);
        assert(s@ =~= spec_format_log_version(version).take(i + 1));
        if i < 19 {
            assert(pow10((19 - i) as nat) == 10 * pow10((18 - i) as nat));
            div = div / 10;
        }
        i = i + 1;
    }
    assert(s@ =~= spec_format_log_version(version));
    s
}

/// The name of the committed log file of `version`: `<20 digits>.json`.
pub fn log_file_name(version: u64) -> (s: String)
    ensures
        s@ == spec_log_file_name(version),
{
    let mut s = format_log_version(version);
    let ext = ".json";
    proof {
        reveal_strlit(".json");
    }
    push_str(&mut s, ext);
    s
}

/// The name under which the log file of `version` is first written:
/// `<20 digits>.json.tmp`.
pub fn tmp_log_file_name(version: u64) -> (s: String)
    ensures
        s@ == spec_tmp_log_file_name(version),
{
    let mut s = log_file_name(version);
    let ext = ".tmp";
    proof {
        reveal_strlit(".tmp");
    }
    push_str(&mut s, ext);
    s
}

/// The version that `name`, a file name found in the log directory, denotes:
/// `Some` exactly for a committed log file name whose stem is twenty ASCII
/// digits whose value fits in a `u64`; names of commits in progress and other
/// files give `None`.
pub fn log_version_of_file_name(name: &str) -> (r: Option<u64>)
    ensures
        r == spec_log_version_of_file_name(name@),
{
    let cs = chars_of(name);
    if cs.len() != 25 {
        return None;
    }
    let ok_ext = cs[20] == '.' && cs[21] == 'j' && cs[22] == 's' && cs[23] == 'o' && cs[24] == 'n';
    if !ok_ext {
        assert(name@.subrange(20, 25) != json_ext()) by {
            if name@.subrange(20, 25) == json_ext() {
                assert(name@.subrange(20, 25)[0] == name@[20]);
                assert(name@.subrange(20, 25)[1] == name@[21]);
                assert(name@.subrange(20, 25)[2] == name@[22]);
                assert(name@.subrange(20, 25)[3] == name@[23]);
                assert(name@.subrange(20, 25)[4] == name@[24]);
            }
        }
        return None;
    }
    assert(name@.subrange(20, 25) =~= json_ext());
    let mut stem = String::new();
    let mut i: usize = 0;
    while i < 20
        invariant
            i <= 20,
            cs@ == name@,
            cs@.len() == 25,
            stem@ == name@.subrange(0, i as int),
            all_digits(name@.subrange(0, i as int)),
        decreases 20 - i,
    {
        let code = cs[i] as u32;
        if code < 48 || code > 57 {
            assert(!is_digit(name@.subrange(0, 20)[i as int]));
            return None;
        }
        assert(is_digit(name@[i as int]));
        push_char(&mut stem, cs[i]);
        i = i + 1;
        assert(stem@ =~= name@.subrange(0, i as int));
        assert forall|j: int| 0 <= j < i implies is_digit(#[trigger] name@.subrange(0, i as int)[j]) by {
            if j < i - 1 {
                assert(name@.subrange(0, i as int)[j] == name@.subrange(0, i - 1)[j]);
            }
        }
    }
    parse_u64(stem.as_str())
}

/// The digits of `padded_decimal(v, w + 1)` are those of `padded_decimal(v / 10, w)`
/// followed by the last digit of `v`.
proof fn lemma_padded_decimal_step(v: nat, w: nat)
    ensures
        padded_decimal(v, w + 1) == padded_decimal(v / 10, w).push(digit_char(v % 10)),
{
    let a = padded_decimal(v, w + 1);
    let b = padded_decimal(v / 10, w).push(digit_char(v % 10));
    assert forall|i: int| 0 <= i < w + 1 implies a[i] == b[i] by {
        if i < w {
            let k = (w - 1 - i) as nat;
            lemma_pow10_positive(k);
            assert(pow10((w - i) as nat) == 10 * pow10(k));
            lemma_div_denominator(v as int, 10, pow10(k) as int);
            assert(a[i] == digit_char((v / pow10((w - i) as nat)) % 10));
            assert(b[i] == padded_decimal(v / 10, w)[i]);
            assert(v / pow10((w - i) as nat) == (v / 10) / pow10(k));
        } else {
            assert(pow10(0) == 1);
            assert(v / 1 == v);
            assert(a[i] == digit_char((v / pow10(0)) % 10));
        }
    }
    assert(a =~= b);
}

/// Reading back the digits of `padded_decimal(v, w)` gives `v` modulo `10^w`.
proof fn lemma_padded_decimal_value(v: nat, w: nat)
    ensures
        decimal_value(padded_decimal(v, w)) == v % pow10(w),
        all_digits(padded_decimal(v, w)),
    decreases w,
{
    if w == 0 {
        assert(padded_decimal(v, w) =~= Seq::<char>::empty());
    } else {
        let w1 = (w - 1) as nat;
        lemma_padded_decimal_step(v, w1);
        lemma_padded_decimal_value(v / 10, w1);
        lemma_pow10_positive(w1);
        let s = padded_decimal(v, w);
        assert(s.drop_last() =~= padded_decimal(v / 10, w1));
        assert(digit_value(digit_char(v % 10)) == v % 10);
        lemma_mod_breakdown(v as int, 10, pow10(w1) as int);
        assert forall|i: int| 0 <= i < s.len() implies is_digit(#[trigger] s[i]) by {
            if i < w1 {
                assert(s[i] == padded_decimal(v / 10, w1)[i]);
            }
        }
    }
}

/// Reading a log version back from its twenty digits gives the version:
/// the stem names every version, and no two versions share a stem.
pub proof fn lemma_format_log_version_parses_back(version: u64)
    ensures
        spec_parse_u64(spec_format_log_version(version)) == Some(version),
{
    let s = spec_format_log_version(version);
    lemma_padded_decimal_value(version as nat, 20);
    reveal_with_fuel(pow10, 21);
    lemma_small_mod(version as nat, pow10(20));
    assert(s[0] != '+') by {
        assert(is_digit(s[0]));
    }
    assert(unsigned_digits(s) == s);
}

/// The committed log file of a version is found again, under that version,
/// when the log directory is listed.
pub proof fn lemma_log_file_name_denotes_version(version: u64)
    ensures
        spec_log_version_of_file_name(spec_log_file_name(version)) == Some(version),
{
    let name = spec_log_file_name(version);
    assert(name.subrange(0, 20) =~= spec_format_log_version(version));
    assert(name.subrange(20, 25) =~= json_ext());
    lemma_padded_decimal_value(version as nat, 20);
    lemma_format_log_version_parses_back(version);
}

/// A log file whose commit is still in progress never counts as a committed version.
pub proof fn lemma_tmp_log_file_name_is_not_a_version(version: u64)
    ensures
        spec_log_version_of_file_name(spec_tmp_log_file_name(version)) is None,
{
    assert(spec_tmp_log_file_name(version).len() == 29);
}

/// Whether `a` comes strictly before `b` in the lexicographic order of their
/// characters, where neither is a proper prefix of the other.
pub open spec fn lex_lt(a: Seq<char>, b: Seq<char>) -> bool {
    exists|k: int|
        0 <= k < a.len() && k < b.len() && a.take(k) == b.take(k) && (#[trigger] a[k] as u32) < (
        b[k] as u32)
}

proof fn lemma_padded_decimal_order(v1: nat, v2: nat, w: nat)
    requires
        v1 < v2,
        v2 < pow10(w),
    ensures
        lex_lt(padded_decimal(v1, w), padded_decimal(v2, w)),
    decreases w,
{
    if w == 0 {
        assert(false);
    } else {
        let w1 = (w - 1) as nat;
        let q1 = v1 / 10;
        let q2 = v2 / 10;
        lemma_padded_decimal_step(v1, w1);
        lemma_padded_decimal_step(v2, w1);
        lemma_fundamental_div_mod(v1 as int, 10);
        lemma_fundamental_div_mod(v2 as int, 10);
        lemma_div_is_ordered(v1 as int, v2 as int, 10);
        assert(pow10(w) == 10 * pow10(w1));
        let a = padded_decimal(v1, w);
        let b = padded_decimal(v2, w);
        let pa = padded_decimal(q1, w1);
        let pb = padded_decimal(q2, w1);
        if q1 < q2 {
            lemma_padded_decimal_order(q1, q2, w1);
            let k = choose|k: int|
                0 <= k < pa.len() && k < pb.len() && pa.take(k) == pb.take(k) && (#[trigger] pa[k]
                    as u32) < (pb[k] as u32);
            assert(a.take(k) =~= pa.take(k));
            assert(b.take(k) =~= pb.take(k));
            assert(a[k] == pa[k]);
            assert(b[k] == pb[k]);
        } else {
            assert(q1 == q2);
            assert(v1 % 10 < v2 % 10);
            let k = w1 as int;
            assert(a.take(k) =~= pa);
            assert(b.take(k) =~= pb);
            assert(a[k] == digit_char(v1 % 10));
            assert(b[k] == digit_char(v2 % 10));
            assert((a[k] as u32) < (b[k] as u32));
        }
    }
}

proof fn lemma_lex_lt_asymmetric(a: Seq<char>, b: Seq<char>)
    requires
        lex_lt(a, b),
    ensures
        !lex_lt(b, a),
{
    if lex_lt(b, a) {
        let k1 = choose|k: int|
            0 <= k < a.len() && k < b.len() && a.take(k) == b.take(k) && (#[trigger] a[k] as u32)
                < (b[k] as u32);
        let k2 = choose|k: int|
            0 <= k < b.len() && k < a.len() && b.take(k) == a.take(k) && (#[trigger] b[k] as u32)
                < (a[k] as u32);
        if k1 < k2 {
            assert(a.take(k2)[k1] == a[k1]);
            assert(b.take(k2)[k1] == b[k1]);
        } else if k2 < k1 {
            assert(a.take(k1)[k2] == a[k2]);
            assert(b.take(k1)[k2] == b[k2]);
        }
    }
}

/// Log file names sort as their versions do: the name of one version comes
/// lexicographically before that of another exactly when its version is smaller.
pub proof fn lemma_log_version_order_is_lexicographic(v1: u64, v2: u64)
    ensures
        v1 < v2 <==> lex_lt(spec_format_log_version(v1), spec_format_log_version(v2)),
{
    reveal_with_fuel(pow10, 21);
    if v1 < v2 {
        lemma_padded_decimal_order(v1 as nat, v2 as nat, 20);
    } else if v2 < v1 {
        lemma_padded_decimal_order(v2 as nat, v1 as nat, 20);
        lemma_lex_lt_asymmetric(spec_format_log_version(v2), spec_format_log_version(v1));
    } else {
        if lex_lt(spec_format_log_version(v1), spec_format_log_version(v2)) {
            lemma_lex_lt_asymmetric(spec_format_log_version(v1), spec_format_log_version(v2));
        }
    }
}

} // verus!
