//! Laws of reading: numbers, times, blanks, the order of texts, and what is told of
//! faults and of downloads.

use crate::gtfs::{
    download_with_fallback, gtfs_cache_path, parse_gtfs_time, time_text, Download, DownloadStep,
    GtfsError,
};
use crate::laws::questions::occurs;
use crate::text::{
    contains, decimal, digits_value, i64_of, is_digit, is_space, is_whitespace, nat_text, parse_i64,
    pieces, same_text, split_on, text_before, text_lt, trim,
};
use vstd::prelude::*;

verus! {

/// White space are the tab, the line ends, the space and the other characters that
/// Unicode calls so.
pub proof fn white_space_is_what_unicode_calls_so(c: char, r: bool)
    requires
        call_ensures(is_whitespace, (c,), r),
    ensures
        ({
            let n = c as u32;
            &&& n < 128 ==> (r <==> n == 32 || 9 <= n <= 13)
            &&& 128 <= n < 8192 ==> (r <==> n == 133 || n == 160 || n == 5760)
            &&& n >= 8192 ==> (r <==> n <= 8202 || n == 8232 || n == 8233 || n == 8239 || n == 8287
                || n == 12288)
        }),
{
}

/// White space comes off at both ends of a text, and nothing else does; of a blank
/// text nothing is left.
pub proof fn only_outer_blanks_come_off(
    s: &str,
    r: String,
    before: Seq<char>,
    core: Seq<char>,
    after: Seq<char>,
)
    requires
        call_ensures(trim, (s,), r),
        forall|i: int| 0 <= i < before.len() ==> is_space(#[trigger] before[i]),
        forall|i: int| 0 <= i < after.len() ==> is_space(#[trigger] after[i]),
        core.len() > 0 ==> !is_space(core[0]) && !is_space(core.last()),
        s@ == before + core + after,
    ensures
        r@ == core,
{
    if core.len() > 0 {
        crate::text::blanks_come_off(before, core, after);
    } else {
        let all = before + after;
        assert(s@ =~= all);
        assert forall|i: int| 0 <= i < all.len() implies is_space(#[trigger] all[i]) by {
            if i < before.len() {
                assert(all[i] == before[i]);
            } else {
                assert(all[i] == after[i - before.len()]);
            }
        }
        lemma_blank(all);
        assert(r@ =~= core);
    }
}

proof fn lemma_blank(s: Seq<char>)
    requires
        forall|i: int| 0 <= i < s.len() ==> is_space(#[trigger] s[i]),
    ensures
        crate::text::trimmed(s).len() == 0,
    decreases s.len(),
{
    if s.len() > 0 {
        let t = s.drop_first();
        assert forall|i: int| 0 <= i < t.len() implies is_space(#[trigger] t[i]) by {
            assert(t[i] == s[i + 1]);
        }
        assert(is_space(s[0]));
        lemma_blank(t);
    }
}

/// Whether two texts first differ at place `k`: there one has ended, or has the
/// smaller code point.
pub open spec fn differs_first(a: Seq<char>, b: Seq<char>, k: int) -> bool {
    &&& 0 <= k <= a.len()
    &&& k < b.len()
    &&& forall|j: int| 0 <= j < k ==> #[trigger] a[j] == b[j]
    &&& k < a.len() ==> (a[k] as int) < (b[k] as int)
}

pub(crate) proof fn lemma_text_lt(a: Seq<char>, b: Seq<char>)
    ensures
        text_lt(a, b) <==> exists|k: int| #[trigger] differs_first(a, b, k),
    decreases b.len(),
{
    if b.len() > 0 {
        if a.len() == 0 {
            assert(differs_first(a, b, 0));
        } else if a[0] == b[0] {
            let x = a.drop_first();
            let y = b.drop_first();
            lemma_text_lt(x, y);
            if text_lt(a, b) {
                let k = choose|k: int| #[trigger] differs_first(x, y, k);
                assert forall|j: int| 0 <= j < k + 1 implies #[trigger] a[j] == b[j] by {
                    if j > 0 {
                        assert(x[j - 1] == y[j - 1]);
                    }
                }
                assert(k < x.len() ==> x[k] == a[k + 1] && y[k] == b[k + 1]);
                assert(differs_first(a, b, k + 1));
            }
            if exists|k: int| #[trigger] differs_first(a, b, k) {
                let k = choose|k: int| #[trigger] differs_first(a, b, k);
                assert(k > 0);
                assert forall|j: int| 0 <= j < k - 1 implies #[trigger] x[j] == y[j] by {
                    assert(a[j + 1] == b[j + 1]);
                }
                assert(differs_first(x, y, k - 1));
            }
        } else {
            if text_lt(a, b) {
                assert(differs_first(a, b, 0));
            }
            if exists|k: int| #[trigger] differs_first(a, b, k) {
                let k = choose|k: int| #[trigger] differs_first(a, b, k);
                if k > 0 {
                    assert(a[0] == b[0]);
                }
            }
        }
    }
}

/// A text comes before another where, at the first place at which they differ, it
/// has ended or has the smaller code point.
pub proof fn the_first_difference_orders_texts(a: &str, b: &str, r: bool)
    requires
        call_ensures(text_before, (a, b), r),
    ensures
        r == text_lt(a@, b@),
        r <==> exists|k: int| #[trigger] differs_first(a@, b@, k),
{
    lemma_text_lt(a@, b@);
}

/// Texts are the same where their characters are; one holds another where it occurs
/// in it.
pub proof fn texts_are_compared_character_by_character(
    a: &str,
    b: &str,
    same: bool,
    held: bool,
)
    requires
        call_ensures(same_text, (a, b), same),
        call_ensures(contains, (a, b), held),
    ensures
        same <==> a@ == b@,
        held <==> occurs(b@, a@),
{
}

/// A text without the separator is its only piece; behind another text and a
/// separator it is one piece more.
pub proof fn a_text_is_split_at_its_separators(
    whole: &str,
    front: &str,
    last: Seq<char>,
    sep: char,
    r: Vec<String>,
    s: Vec<String>,
)
    requires
        !last.contains(sep),
        call_ensures(split_on, (whole, sep), r),
        call_ensures(split_on, (front, sep), s),
    ensures
        whole@ == front@.push(sep) + last ==> r@.len() == s@.len() + 1 && r@.last()@ == last && (
        forall|i: int| 0 <= i < s@.len() ==> (#[trigger] r@[i])@ == s@[i]@),
        whole@ == last ==> r@.len() == 1 && r@[0]@ == last,
{
    crate::text::a_text_behind_a_separator_is_a_piece(front@, last, sep);
    assert(r.deep_view().len() == r@.len());
    assert(s.deep_view().len() == s@.len());
    if whole@ == front@.push(sep) + last {
        let p = pieces(front@, sep);
        assert(r.deep_view() == p.push(last));
        assert(p.len() == s@.len());
        assert(r.deep_view()[r@.len() - 1] == r@.last()@);
        assert forall|i: int| 0 <= i < s@.len() implies (#[trigger] r@[i])@ == s@[i]@ by {
            assert(r.deep_view()[i] == r@[i]@);
            assert(s.deep_view()[i] == s@[i]@);
        }
    }
    if whole@ == last {
        assert(r.deep_view()[0] == r@[0]@);
    }
}

/// An integer is read back from the digits that write it.
pub proof fn a_written_integer_reads_back(n: i64, written: String, text: &str, r: Option<i64>)
    requires
        call_ensures(decimal, (n,), written),
        text@ == written@,
        call_ensures(parse_i64, (text,), r),
    ensures
        r == Some(n),
{
    let m: nat = if n < 0 {
        (-n) as nat
    } else {
        n as nat
    };
    crate::text::digits_write_the_number(m);
    let t = nat_text(m);
    assert(is_digit(t[0]));
    if n < 0 {
        let s = seq!['-'] + t;
        assert(s.drop_first() =~= t);
        assert(s[0] == '-');
    }
}

/// One digit more multiplies an integer by ten and adds the digit, as long as it
/// fits; a digit alone is its own value.
pub proof fn each_digit_counts_ten_times_the_next(
    front: &str,
    whole: &str,
    digit: char,
    r: Option<i64>,
    s: Option<i64>,
)
    requires
        '0' as u32 <= digit as u32 <= '9' as u32,
        forall|i: int|
            0 <= i < front@.len() ==> '0' as u32 <= (#[trigger] front@[i]) as u32 <= '9' as u32,
        whole@ == front@.push(digit),
        call_ensures(parse_i64, (front,), r),
        call_ensures(parse_i64, (whole,), s),
    ensures
        front@.len() == 0 ==> s == Some((digit as u32 - '0' as u32) as i64),
        front@.len() > 0 && r is Some ==> {
            let v = r->0 * 10 + (digit as u32 - '0' as u32);
            &&& v <= i64::MAX ==> s is Some && s->0 == v
            &&& v > i64::MAX ==> s is None
        },
        front@.len() > 0 && r is None ==> s is None,
{
    let w = whole@;
    assert(w.drop_last() =~= front@);
    assert(w.last() == digit);
    assert(crate::text::all_digits(w)) by {
        assert forall|i: int| 0 <= i < w.len() implies is_digit(#[trigger] w[i]) by {
            if i < front@.len() {
                assert(w[i] == front@[i]);
            }
        }
    }
    assert(is_digit(w[0]));
    assert(digits_value(w) == digits_value(front@) * 10 + (digit as u32 - '0' as u32) as nat);
    if front@.len() == 0 {
        assert(digits_value(front@) == 0);
    } else {
        assert(crate::text::all_digits(front@)) by {
            assert forall|i: int| 0 <= i < front@.len() implies is_digit(#[trigger] front@[i]) by {}
        }
        assert(is_digit(front@[0]));
    }
}

/// A text is no integer where it is empty, a sign alone, or holds anything but
/// digits behind an optional sign.
pub proof fn anything_but_digits_is_no_integer(text: &str, r: Option<i64>, i: int)
    requires
        call_ensures(parse_i64, (text,), r),
    ensures
        text@.len() == 0 ==> r is None,
        text@.len() == 1 && (text@[0] == '+' || text@[0] == '-') ==> r is None,
        0 <= i < text@.len() && !('0' as u32 <= text@[i] as u32 <= '9' as u32) && (i > 0 || (
        text@[0] != '+' && text@[0] != '-')) ==> r is None,
{
    let s = text@;
    if 0 <= i < s.len() && !('0' as u32 <= s[i] as u32 <= '9' as u32) {
        if s[0] == '-' || s[0] == '+' {
            if i > 0 {
                assert(s.drop_first()[i - 1] == s[i]);
                assert(!is_digit(s.drop_first()[i - 1]));
            }
        } else {
            assert(!is_digit(s[i]));
        }
    }
}

/// A plus sign in front of digits changes nothing, a minus sign negates.
pub proof fn signs_stand_in_front(digits: &str, signed: &str, r: Option<i64>, s: Option<i64>)
    requires
        digits@.len() > 0,
        forall|i: int|
            0 <= i < digits@.len() ==> '0' as u32 <= (#[trigger] digits@[i]) as u32 <= '9' as u32,
        call_ensures(parse_i64, (digits,), r),
        call_ensures(parse_i64, (signed,), s),
        r is Some,
    ensures
        signed@ == seq!['+'] + digits@ ==> s == r,
        signed@ == seq!['-'] + digits@ ==> s is Some && s->0 == -r->0,
{
    assert(crate::text::all_digits(digits@)) by {
        assert forall|i: int| 0 <= i < digits@.len() implies is_digit(#[trigger] digits@[i]) by {}
    }
    assert(is_digit(digits@[0]));
    assert((seq!['+'] + digits@).drop_first() =~= digits@);
    assert((seq!['-'] + digits@).drop_first() =~= digits@);
}

/// A time written as hours, minutes and seconds, whatever blanks stand around it,
/// reads as its seconds from midnight, with hours past 24 too; a text without
/// colons is no time.
pub proof fn a_time_is_read_in_seconds(
    text: &str,
    r: Option<i64>,
    hours: nat,
    minutes: nat,
    seconds: nat,
    before: Seq<char>,
    after: Seq<char>,
)
    requires
        call_ensures(parse_gtfs_time, (text,), r),
        minutes < 60,
        seconds < 60,
        hours * 3600 + minutes * 60 + seconds <= i64::MAX,
        forall|i: int| 0 <= i < before.len() ==> is_space(#[trigger] before[i]),
        forall|i: int| 0 <= i < after.len() ==> is_space(#[trigger] after[i]),
    ensures
        text@ == before + time_text(hours, minutes, seconds) + after ==> r is Some && r->0 == hours
            * 3600 + minutes * 60 + seconds,
{
    if text@ == before + time_text(hours, minutes, seconds) + after {
        crate::gtfs::a_written_time_reads_back(hours, minutes, seconds, before, after);
    }
}

/// A time needs three parts between colons, each of them an integer.
pub proof fn a_time_has_three_integers(
    text: &str,
    core: &str,
    trimmed: String,
    parts: Vec<String>,
    r: Option<i64>,
)
    requires
        call_ensures(parse_gtfs_time, (text,), r),
        call_ensures(trim, (text,), trimmed),
        core@ == trimmed@,
        call_ensures(split_on, (core, ':'), parts),
    ensures
        parts@.len() < 3 ==> r is None,
        parts@.len() >= 3 && (i64_of(parts@[0]@) is None || i64_of(parts@[1]@) is None || i64_of(
            parts@[2]@,
        ) is None) ==> r is None,
        parts@.len() >= 3 && i64_of(parts@[0]@) is Some && i64_of(parts@[1]@) is Some && i64_of(
            parts@[2]@,
        ) is Some && r is Some ==> r->0 == i64_of(parts@[0]@)->0 * 3600 + i64_of(parts@[1]@)->0
            * 60 + i64_of(parts@[2]@)->0,
{
    if parts@.len() >= 3 {
        assert(parts.deep_view()[0] == parts@[0]@);
        assert(parts.deep_view()[1] == parts@[1]@);
        assert(parts.deep_view()[2] == parts@[2]@);
    }
}

/// What is wrong is told in words that name what is concerned.
pub proof fn a_fault_is_told_in_words(e: &GtfsError, r: String)
    requires
        call_ensures(GtfsError::message, (e,), r),
    ensures
        *e matches GtfsError::Zip ==> r@ == "lecture ZIP GTFS"@,
        *e matches GtfsError::MissingEntry(name) ==> r@ == "entrée "@ + name@
            + " absente du ZIP"@,
        *e matches GtfsError::Csv(message) ==> r@ == message@,
        *e matches GtfsError::MissingColumn(name) ==> r@ == "colonne "@ + name@ + " absente"@,
        *e matches GtfsError::InvalidDate(text, why) ==> r@ == "date invalide "@ + text@ + ": "@
            + why@,
{
}

/// A download that brought bytes is done. One that brought none, or failed, is
/// followed by the fallback; where the fallback was asked already, what it told is
/// told.
pub proof fn a_failed_download_falls_back_once(
    url: &str,
    attempt: usize,
    outcome: Download,
    r: DownloadStep,
)
    requires
        attempt <= 1,
        call_ensures(download_with_fallback, (url, attempt, outcome), r),
    ensures
        outcome matches Download::Received(n) ==> (n > 0 ==> r == DownloadStep::Done(n)),
        attempt == 0 && (outcome matches Download::Received(n) ==> n == 0) ==> (
        r matches DownloadStep::Try(u) && u@
            == "https://opendata.tec-wl.be/Current%20GTFS/TEC-GTFS.zip"@),
        attempt == 1 ==> (outcome matches Download::Failed(m) ==> (
        r matches DownloadStep::GiveUp(t) && t@ == m@)),
        attempt == 1 ==> (outcome matches Download::Received(n) ==> (n == 0 ==> (
        r matches DownloadStep::GiveUp(t) && t@ == "réponse GTFS vide ("@
            + "https://opendata.tec-wl.be/Current%20GTFS/TEC-GTFS.zip"@ + ")"@))),
{
}

/// The ZIP file is kept under the data folder, in `raw/gtfs/tec-gtfs.zip`.
pub proof fn the_file_is_kept_under_the_data_folder(data_dir: &str, r: String)
    requires
        call_ensures(gtfs_cache_path, (data_dir,), r),
    ensures
        data_dir@.len() > 0 && data_dir@.last() != '/' ==> r@ == data_dir@
            + "/raw/gtfs/tec-gtfs.zip"@,
        data_dir@.len() > 0 && data_dir@.last() == '/' ==> r@ == data_dir@
            + "raw/gtfs/tec-gtfs.zip"@,
        data_dir@.len() == 0 ==> r@ == "raw/gtfs/tec-gtfs.zip"@,
{
    reveal_strlit("raw");
    reveal_strlit("gtfs");
    reveal_strlit("tec-gtfs.zip");
    reveal_strlit("raw/gtfs/tec-gtfs.zip");
    reveal_strlit("/raw/gtfs/tec-gtfs.zip");
    let slash = seq!['/'];
    let rest = "raw"@ + slash + "gtfs"@ + slash + "tec-gtfs.zip"@;
    assert(rest =~= "raw/gtfs/tec-gtfs.zip"@);
    assert(slash + rest =~= "/raw/gtfs/tec-gtfs.zip"@);
    let a = crate::gtfs::path_under(data_dir@, "raw"@);
    assert(a.last() == "raw"@[2]);
    let b = crate::gtfs::path_under(a, "gtfs"@);
    assert(b.last() == "gtfs"@[3]);
    if data_dir@.len() == 0 {
        assert(r@ =~= rest);
    } else if data_dir@.last() == '/' {
        assert(r@ =~= data_dir@ + rest);
    } else {
        assert(r@ =~= data_dir@ + (slash + rest));
    }
}

} // verus!
