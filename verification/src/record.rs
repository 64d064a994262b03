//! The run record and its canonical JSON form.
//!
//! A rehearsal run is persisted as one JSON document.  The document
//! grammar is fixed: one object, fields in a fixed order, strings
//! holding no quote, backslash or control character.  `record_to_json`
//! renders a record into that form and `record_from_json` reads it
//! back; the contracts pin the two down as exact inverses on
//! well-formed records.

use vstd::prelude::*;
use vstd::string::StrSliceExecFns;
use vstd::string::StringExecFns;
use crate::strutil::dec_digits;
use crate::strutil::int_digits;
use crate::strutil::u64_string;
use crate::strutil::i32_string;

verus! {

/// One rehearsal run, as persisted in the history store.
pub struct RunRecord {
    pub stack: String,
    pub timestamp: String,
    pub duration_seconds: u64,
    pub readiness: Option<u32>,
    pub confidence: u32,
    pub risk: String,
    pub exit_code: i32,
    pub services: Vec<(String, u32)>,
    pub hash: Option<String>,
}

/// The mathematical value of a record: every string as a character
/// sequence.
#[verifier::ext_equal]
pub struct RecordV {
    pub stack: Seq<char>,
    pub timestamp: Seq<char>,
    pub duration_seconds: u64,
    pub readiness: Option<u32>,
    pub confidence: u32,
    pub risk: Seq<char>,
    pub exit_code: i32,
    pub services: Seq<(Seq<char>, u32)>,
    pub hash: Option<Seq<char>>,
}

pub open spec fn svc_views(s: Seq<(String, u32)>) -> Seq<(Seq<char>, u32)> {
    s.map_values(|p: (String, u32)| (p.0@, p.1))
}

pub open spec fn opt_view(o: Option<String>) -> Option<Seq<char>> {
    match o {
        Some(s) => Some(s@),
        None => None,
    }
}

impl View for RunRecord {
    type V = RecordV;

    open spec fn view(&self) -> RecordV {
        RecordV {
            stack: self.stack@,
            timestamp: self.timestamp@,
            duration_seconds: self.duration_seconds,
            readiness: self.readiness,
            confidence: self.confidence,
            risk: self.risk@,
            exit_code: self.exit_code,
            services: svc_views(self.services@),
            hash: opt_view(self.hash),
        }
    }
}

// ------------------------------------------------------------------
// Well-formedness
// ------------------------------------------------------------------

/// A character that may stand unescaped inside a JSON string.
pub open spec fn json_safe_char(c: char) -> bool {
    c != '"' && c != '\\' && c >= ' '
}

pub open spec fn json_safe(s: Seq<char>) -> bool {
    forall|i: int| 0 <= i < s.len() ==> json_safe_char(#[trigger] s[i])
}

/// Every string of the record can stand unescaped in the document.
pub open spec fn record_wf(v: RecordV) -> bool {
    &&& json_safe(v.stack)
    &&& json_safe(v.timestamp)
    &&& json_safe(v.risk)
    &&& (v.hash matches Some(h) ==> json_safe(h))
    &&& forall|i: int| 0 <= i < v.services.len() ==> json_safe((#[trigger] v.services[i]).0)
}

// ------------------------------------------------------------------
// The canonical document, as a spec function
// ------------------------------------------------------------------

pub open spec fn opt_u32_json(o: Option<u32>) -> Seq<char> {
    match o {
        Some(n) => dec_digits(n as nat),
        None => ("null")@,
    }
}

pub open spec fn opt_str_json(o: Option<Seq<char>>) -> Seq<char> {
    match o {
        Some(s) => ("\"")@ + s + ("\"")@,
        None => ("null")@,
    }
}

pub open spec fn svc_entry_json(e: (Seq<char>, u32)) -> Seq<char> {
    ("\"")@ + e.0 + ("\":")@ + dec_digits(e.1 as nat)
}

/// The entries after the first, each preceded by a comma, and the
/// closing brace.
pub open spec fn svc_tail_json(entries: Seq<(Seq<char>, u32)>) -> Seq<char>
    decreases entries.len(),
{
    if entries.len() == 0 {
        ("}")@
    } else {
        (",")@ + svc_entry_json(entries[0]) + svc_tail_json(entries.drop_first())
    }
}

pub open spec fn svc_json(entries: Seq<(Seq<char>, u32)>) -> Seq<char> {
    if entries.len() == 0 {
        ("{}")@
    } else {
        ("{")@ + svc_entry_json(entries[0]) + svc_tail_json(entries.drop_first())
    }
}

/// The document, defined as a cascade of suffixes so that a proof can
/// peel it from the left one part at a time.
pub open spec fn rj1(v: RecordV) -> Seq<char> {
    v.stack + rj2(v)
}

pub open spec fn rj2(v: RecordV) -> Seq<char> {
    ("\",\"timestamp\":\"")@ + rj3(v)
}

pub open spec fn rj3(v: RecordV) -> Seq<char> {
    v.timestamp + rj4(v)
}

pub open spec fn rj4(v: RecordV) -> Seq<char> {
    ("\",\"duration_seconds\":")@ + rj5(v)
}

pub open spec fn rj5(v: RecordV) -> Seq<char> {
    dec_digits(v.duration_seconds as nat) + rj6(v)
}

pub open spec fn rj6(v: RecordV) -> Seq<char> {
    (",\"readiness\":")@ + rj7(v)
}

pub open spec fn rj7(v: RecordV) -> Seq<char> {
    opt_u32_json(v.readiness) + rj8(v)
}

pub open spec fn rj8(v: RecordV) -> Seq<char> {
    (",\"confidence\":")@ + rj9(v)
}

pub open spec fn rj9(v: RecordV) -> Seq<char> {
    dec_digits(v.confidence as nat) + rj10(v)
}

pub open spec fn rj10(v: RecordV) -> Seq<char> {
    (",\"risk\":\"")@ + rj11(v)
}

pub open spec fn rj11(v: RecordV) -> Seq<char> {
    v.risk + rj12(v)
}

pub open spec fn rj12(v: RecordV) -> Seq<char> {
    ("\",\"exit_code\":")@ + rj13(v)
}

pub open spec fn rj13(v: RecordV) -> Seq<char> {
    int_digits(v.exit_code as int) + rj14(v)
}

pub open spec fn rj14(v: RecordV) -> Seq<char> {
    (",\"services\":")@ + rj15(v)
}

pub open spec fn rj15(v: RecordV) -> Seq<char> {
    svc_json(v.services) + rj16(v)
}

pub open spec fn rj16(v: RecordV) -> Seq<char> {
    (",\"hash\":")@ + rj17(v)
}

pub open spec fn rj17(v: RecordV) -> Seq<char> {
    opt_str_json(v.hash) + ("}")@
}

/// The whole document.
pub open spec fn record_json(v: RecordV) -> Seq<char> {
    ("{\"stack\":\"")@ + rj1(v)
}

// ------------------------------------------------------------------
// Rendering
// ------------------------------------------------------------------

/// Render a record into its canonical JSON document.
#[verifier::rlimit(100)]
pub fn record_to_json(r: &RunRecord) -> (out: String)
    ensures
        out@ == record_json(r@),
{
    let mut out = String::new();
    out.append("{\"stack\":\"");
    out.append(r.stack.as_str());
    out.append("\",\"timestamp\":\"");
    out.append(r.timestamp.as_str());
    out.append("\",\"duration_seconds\":");
    out.append(u64_string(r.duration_seconds).as_str());
    out.append(",\"readiness\":");
    match r.readiness {
        Some(n) => {
            out.append(u64_string(n as u64).as_str());
        },
        None => {
            out.append("null");
        },
    }
    out.append(",\"confidence\":");
    out.append(u64_string(r.confidence as u64).as_str());
    out.append(",\"risk\":\"");
    out.append(r.risk.as_str());
    out.append("\",\"exit_code\":");
    out.append(i32_string(r.exit_code).as_str());
    out.append(",\"services\":");
    append_services(&mut out, &r.services);
    out.append(",\"hash\":");
    match &r.hash {
        Some(h) => {
            out.append("\"");
            out.append(h.as_str());
            out.append("\"");
        },
        None => {
            out.append("null");
        },
    }
    out.append("}");
    proof {
        let v = r@;
        let p1 = ("{\"stack\":\"")@;
        let p2 = v.stack;
        let p3 = ("\",\"timestamp\":\"")@;
        let p4 = v.timestamp;
        let p5 = ("\",\"duration_seconds\":")@;
        let p6 = dec_digits(v.duration_seconds as nat);
        let p7 = (",\"readiness\":")@;
        let p8 = opt_u32_json(v.readiness);
        let p9 = (",\"confidence\":")@;
        let p10 = dec_digits(v.confidence as nat);
        let p11 = (",\"risk\":\"")@;
        let p12 = v.risk;
        let p13 = ("\",\"exit_code\":")@;
        let p14 = int_digits(v.exit_code as int);
        let p15 = (",\"services\":")@;
        let p16 = svc_json(v.services);
        let p17 = (",\"hash\":")@;
        let p18 = opt_str_json(v.hash);
        let p19 = ("}")@;
        assert(Seq::<char>::empty() + p1 =~= p1);
        let q2 = p1 + p2;
        let q3 = q2 + p3;
        let q4 = q3 + p4;
        let q5 = q4 + p5;
        let q6 = q5 + p6;
        let q7 = q6 + p7;
        let q8 = q7 + p8;
        let q9 = q8 + p9;
        let q10 = q9 + p10;
        let q11 = q10 + p11;
        let q12 = q11 + p12;
        let q13 = q12 + p13;
        let q14 = q13 + p14;
        let q15 = q14 + p15;
        let q16 = q15 + p16;
        let q17 = q16 + p17;
        let q18 = q17 + p18;
        let q19 = q18 + p19;
        assert(out@ == q19);
        vstd::seq_lib::lemma_concat_associative(q17, p18, p19);
        vstd::seq_lib::lemma_concat_associative(q16, p17, rj17(v));
        vstd::seq_lib::lemma_concat_associative(q15, p16, rj16(v));
        vstd::seq_lib::lemma_concat_associative(q14, p15, rj15(v));
        vstd::seq_lib::lemma_concat_associative(q13, p14, rj14(v));
        vstd::seq_lib::lemma_concat_associative(q12, p13, rj13(v));
        vstd::seq_lib::lemma_concat_associative(q11, p12, rj12(v));
        vstd::seq_lib::lemma_concat_associative(q10, p11, rj11(v));
        vstd::seq_lib::lemma_concat_associative(q9, p10, rj10(v));
        vstd::seq_lib::lemma_concat_associative(q8, p9, rj9(v));
        vstd::seq_lib::lemma_concat_associative(q7, p8, rj8(v));
        vstd::seq_lib::lemma_concat_associative(q6, p7, rj7(v));
        vstd::seq_lib::lemma_concat_associative(q5, p6, rj6(v));
        vstd::seq_lib::lemma_concat_associative(q4, p5, rj5(v));
        vstd::seq_lib::lemma_concat_associative(q3, p4, rj4(v));
        vstd::seq_lib::lemma_concat_associative(q2, p3, rj3(v));
        vstd::seq_lib::lemma_concat_associative(p1, p2, rj2(v));
        assert(out@ == record_json(v));
    }
    out
}

/// Append the service-score object.
fn append_services(out: &mut String, services: &Vec<(String, u32)>)
    ensures
        final(out)@ == old(out)@ + svc_json(svc_views(services@)),
{
    let n = services.len();
    if n == 0 {
        out.append("{}");
        return ;
    }
    out.append("{");
    let mut i: usize = 0;
    while i < n
        invariant
            1 <= n == services@.len(),
            0 <= i <= n,
            i == 0 ==> out@ == old(out)@ + ("{")@,
            i >= 1 ==> out@ == old(out)@ + ("{")@ + svc_entry_json(
                svc_views(services@)[0],
            ) + svc_comma_entries(svc_views(services@).subrange(1, i as int)),
        decreases n - i,
    {
        if i > 0 {
            out.append(",");
        }
        out.append("\"");
        out.append(services[i].0.as_str());
        out.append("\":");
        out.append(u64_string(services[i].1 as u64).as_str());
        proof {
            let vs = svc_views(services@);
            if i == 0 {
                assert(out@ =~= old(out)@ + ("{")@ + svc_entry_json(vs[0]) + svc_comma_entries(
                    vs.subrange(1, 1),
                ));
            } else {
                assert(vs.subrange(1, i + 1).drop_last() =~= vs.subrange(1, i as int));
                assert(out@ =~= old(out)@ + ("{")@ + svc_entry_json(vs[0]) + svc_comma_entries(
                    vs.subrange(1, i + 1),
                ));
            }
        }
        i = i + 1;
    }
    out.append("}");
    proof {
        let vs = svc_views(services@);
        assert(vs.subrange(1, n as int) =~= vs.drop_first());
        lemma_svc_tail_decompose(vs.drop_first());
        assert(out@ =~= old(out)@ + svc_json(vs));
    }
}

/// The comma-preceded entries of a sequence, without the closing
/// brace; an iterative companion of `svc_tail_json`.
pub open spec fn svc_comma_entries(entries: Seq<(Seq<char>, u32)>) -> Seq<char>
    decreases entries.len(),
{
    if entries.len() == 0 {
        Seq::<char>::empty()
    } else {
        svc_comma_entries(entries.drop_last()) + (",")@ + svc_entry_json(entries.last())
    }
}

/// `svc_tail_json` is the comma-separated entries followed by the
/// closing brace.
pub proof fn lemma_svc_tail_decompose(entries: Seq<(Seq<char>, u32)>)
    ensures
        svc_tail_json(entries) == svc_comma_entries(entries) + ("}")@,
    decreases entries.len(),
{
    if entries.len() == 0 {
        assert(svc_tail_json(entries) =~= svc_comma_entries(entries) + ("}")@);
    } else {
        lemma_svc_tail_decompose(entries.drop_first());
        if entries.len() == 1 {
            assert(entries.drop_first() =~= Seq::<(Seq<char>, u32)>::empty());
            assert(entries.drop_last() =~= Seq::<(Seq<char>, u32)>::empty());
            assert(entries.last() == entries[0]);
            assert(svc_tail_json(entries) =~= svc_comma_entries(entries) + ("}")@);
        } else {
            let d = entries.drop_first();
            assert(d.drop_last() =~= entries.drop_last().drop_first());
            assert(d.last() == entries.last());
            lemma_svc_comma_push(entries.drop_last());
            assert(entries.drop_last()[0] == entries[0]);
            assert(svc_tail_json(entries) =~= svc_comma_entries(entries) + ("}")@);
        }
    }
}

/// Unfold `svc_comma_entries` from the front.
pub proof fn lemma_svc_comma_push(entries: Seq<(Seq<char>, u32)>)
    requires
        entries.len() >= 1,
    ensures
        svc_comma_entries(entries) == (",")@ + svc_entry_json(entries[0]) + svc_comma_entries(
            entries.drop_first(),
        ),
    decreases entries.len(),
{
    if entries.len() == 1 {
        assert(entries.drop_last() =~= Seq::<(Seq<char>, u32)>::empty());
        assert(entries.drop_first() =~= Seq::<(Seq<char>, u32)>::empty());
        assert(entries.last() == entries[0]);
        assert(svc_comma_entries(entries) =~= (",")@ + svc_entry_json(entries[0])
            + svc_comma_entries(entries.drop_first()));
    } else {
        lemma_svc_comma_push(entries.drop_last());
        assert(entries.drop_last()[0] == entries[0]);
        assert(entries.drop_last().drop_first() =~= entries.drop_first().drop_last());
        assert(entries.drop_first().last() == entries.last());
        assert(svc_comma_entries(entries) =~= (",")@ + svc_entry_json(entries[0])
            + svc_comma_entries(entries.drop_first()));
    }
}


// ------------------------------------------------------------------
// Scanning primitives
// ------------------------------------------------------------------

/// `t` occurs at position `pos` of `s`.
pub open spec fn matches_at(s: Seq<char>, pos: int, t: Seq<char>) -> bool {
    0 <= pos && pos + t.len() <= s.len() && s.subrange(pos, pos + t.len()) == t
}

/// Expect an exact literal at a position.
fn parse_lit(s: &str, pos: usize, lit: &str) -> (r: Option<usize>)
    requires
        pos <= s@.len(),
    ensures
        r matches Some(p) ==> p == pos + lit@.len() && p <= s@.len() && matches_at(
            s@,
            pos as int,
            lit@,
        ),
        r is None ==> !matches_at(s@, pos as int, lit@),
{
    let n = s.unicode_len();
    let ln = lit.unicode_len();
    if ln > n - pos {
        return None;
    }
    let mut j: usize = 0;
    while j < ln
        invariant
            0 <= j <= ln,
            pos + ln <= n,
            n == s@.len(),
            ln == lit@.len(),
            forall|k: int| 0 <= k < j ==> s@[pos + k] == lit@[k],
        decreases ln - j,
    {
        if s.get_char(pos + j) != lit.get_char(j) {
            proof {
                let sub = s@.subrange(pos as int, pos + lit@.len());
                assert(sub[j as int] == s@[pos + j]);
                assert(!(sub =~= lit@));
            }
            return None;
        }
        j = j + 1;
    }
    proof {
        assert(s@.subrange(pos as int, pos + lit@.len()) =~= lit@);
    }
    Some(pos + ln)
}

/// Scan forward to the first '"', returning the text before it and the
/// position of the quote itself.
fn scan_field(s: &str, pos: usize) -> (r: Option<(String, usize)>)
    requires
        pos <= s@.len(),
    ensures
        r matches Some(x) ==> pos <= x.1 <= s@.len(),
        forall|content: Seq<char>|
            json_safe(content) && matches_at(s@, pos as int, content) && pos + content.len()
                < s@.len() && s@[pos + content.len()] == '"' ==> r is Some && r->Some_0.0@
                == content && r->Some_0.1 == pos + content.len(),
{
    let n = s.unicode_len();
    let mut i: usize = pos;
    while i < n
        invariant
            pos <= i <= n,
            n == s@.len(),
            forall|j: int| pos <= j < i ==> s@[j] != '"',
        decreases n - i,
    {
        if s.get_char(i) == '"' {
            let content = s.substring_char(pos, i).to_owned();
            proof {
                assert forall|content0: Seq<char>|
                    json_safe(content0) && matches_at(s@, pos as int, content0) && pos
                        + content0.len() < s@.len() && s@[pos + content0.len()]
                        == '"' implies content@ == content0 && i == pos + content0.len() by {
                    if pos + content0.len() < i {
                        assert(s@[pos + content0.len()] != '"');
                        assert(false);
                    } else if pos + content0.len() > i {
                        let k = i - pos;
                        assert(content0[k] == s@.subrange(pos as int, pos + content0.len())[k]);
                        assert(content0[k] == '"');
                        assert(json_safe_char(content0[k]));
                        assert(false);
                    }
                    assert(content@ =~= content0);
                }
            }
            return Some((content, i));
        }
        i = i + 1;
    }
    proof {
        assert forall|content0: Seq<char>|
            !(json_safe(content0) && matches_at(s@, pos as int, content0) && pos + content0.len()
                < s@.len() && s@[pos + content0.len()] == '"') by {
            if json_safe(content0) && matches_at(s@, pos as int, content0) && pos + content0.len()
                < s@.len() && s@[pos + content0.len()] == '"' {
                assert(s@[pos + content0.len()] != '"');
            }
        }
    }
    None
}

/// The position just past a number is the end of the input or holds a
/// non-digit, so the digit run ends there.
pub open spec fn num_end_ok(s: Seq<char>, endpos: int) -> bool {
    endpos == s.len() || !crate::strutil::is_digit(s[endpos])
}

/// A complete `u64` rendering stands at `pos`.
pub open spec fn u64_at(s: Seq<char>, pos: int, n: u64) -> bool {
    matches_at(s, pos, dec_digits(n as nat)) && num_end_ok(s, pos + dec_digits(n as nat).len())
}

/// A complete `i32` rendering stands at `pos`.
pub open spec fn i32_at(s: Seq<char>, pos: int, e: i32) -> bool {
    matches_at(s, pos, int_digits(e as int)) && num_end_ok(s, pos + int_digits(e as int).len())
}

/// Scan a run of decimal digits into a `u64`.
fn scan_u64(s: &str, pos: usize) -> (r: Option<(u64, usize)>)
    requires
        pos <= s@.len(),
    ensures
        r matches Some(x) ==> pos < x.1 <= s@.len(),
        forall|n: u64|
            u64_at(s@, pos as int, n) ==> (r is Some && r->Some_0.0 == n && r->Some_0.1 == pos
                + dec_digits(n as nat).len()),
{
    let sn = s.unicode_len();
    let mut i: usize = pos;
    let mut acc: u64 = 0;
    let mut overflowed = false;
    let mut done = false;
    while i < sn && !done
        invariant
            pos <= i <= sn,
            sn == s@.len(),
            forall|j: int| pos <= j < i ==> crate::strutil::is_digit(#[trigger] s@[j]),
            !overflowed ==> acc as nat == crate::strutil::dec_value(
                s@.subrange(pos as int, i as int),
            ),
            overflowed ==> crate::strutil::dec_value(s@.subrange(pos as int, i as int))
                > u64::MAX,
            i > pos || (!overflowed && acc == 0),
            done ==> i < sn && !crate::strutil::is_digit(s@[i as int]),
        decreases sn - i, 1int - (if done { 1int } else { 0int }),
    {
        let c = s.get_char(i);
        match crate::strutil::digit_of(c) {
            Some(d) => {
                proof {
                    let pre = s@.subrange(pos as int, i as int);
                    let ext = s@.subrange(pos as int, i + 1);
                    assert(ext.drop_last() =~= pre);
                    assert(ext.last() == s@[i as int]);
                }
                if !overflowed {
                    if acc > (u64::MAX - d) / 10 {
                        overflowed = true;
                    } else {
                        acc = acc * 10 + d;
                    }
                }
                i = i + 1;
            },
            None => {
                done = true;
            },
        }
    }
    // here: i == sn, or s@[i] is not a digit
    proof {
        assert(i == sn || !crate::strutil::is_digit(s@[i as int]));
        assert forall|n: u64|
            u64_at(s@, pos as int, n) implies i == pos + dec_digits(n as nat).len() && !overflowed
            && i > pos && acc == n by {
            let dd = dec_digits(n as nat);
            crate::strutil::lemma_dec_digits_all_digits(n as nat);
            if i < pos + dd.len() {
                assert(s@[i as int] == s@.subrange(pos as int, pos + dd.len())[i - pos]);
                assert(crate::strutil::is_digit(s@[i as int]));
                assert(i < sn);
                assert(false);
            }
            if i > pos + dd.len() {
                assert(pos + dd.len() < sn);
                assert(crate::strutil::is_digit(s@[pos + dd.len()]));
                assert(false);
            }
            assert(s@.subrange(pos as int, i as int) =~= dd);
            crate::strutil::lemma_dec_value_of_digits(n as nat);
            assert(crate::strutil::dec_value(s@.subrange(pos as int, i as int)) == n as nat);
            assert(!overflowed);
        }
    }
    if overflowed || i == pos {
        return None;
    }
    Some((acc, i))
}



/// The number at `pos` is negative in the document exactly when a
/// minus sign stands there; this rules the two scan branches apart.
proof fn lemma_i32_sign(s: Seq<char>, pos: int, e: i32)
    requires
        i32_at(s, pos, e),
    ensures
        e < 0 ==> s[pos] == '-' && matches_at(s, pos + 1, dec_digits((-(e as int)) as nat))
            && num_end_ok(s, pos + 1 + dec_digits((-(e as int)) as nat).len()),
        e >= 0 ==> crate::strutil::is_digit(s[pos]) && s[pos] != '-' && u64_at(s, pos, e as u64),
{
    if e < 0 {
        let mag = (-(e as int)) as nat;
        let t = int_digits(e as int);
        assert forall|k: int| pos <= k < pos + t.len() implies #[trigger] s[k] == t[k - pos] by {
            assert(s[k] == s.subrange(pos, pos + t.len())[k - pos]);
        }
        assert(s[pos] == t[0]);
        assert(s.subrange(pos + 1, pos + 1 + dec_digits(mag).len()) =~= dec_digits(mag));
    } else {
        crate::strutil::lemma_dec_digits_all_digits(e as nat);
        assert(s[pos] == int_digits(e as int)[0]);
        assert(crate::strutil::is_digit(s[pos]));
    }
}

/// Scan a possibly negative decimal number into an `i32`.
fn scan_i32(s: &str, pos: usize) -> (r: Option<(i32, usize)>)
    requires
        pos <= s@.len(),
    ensures
        r matches Some(x) ==> pos < x.1 <= s@.len(),
        forall|e: i32|
            i32_at(s@, pos as int, e) ==> (r is Some && r->Some_0.0 == e && r->Some_0.1 == pos
                + int_digits(e as int).len()),
{
    let n = s.unicode_len();
    let negative = pos < n && s.get_char(pos) == '-';
    let from: usize = if negative {
        pos + 1
    } else {
        pos
    };
    let scanned = scan_u64(s, from);
    proof {
        assert forall|e: i32| i32_at(s@, pos as int, e) implies (e < 0) == negative by {
            lemma_i32_sign(s@, pos as int, e);
            if e >= 0 {
                assert(pos < s@.len());
            }
        }
    }
    match scanned {
        Some((m, q)) => {
            if negative {
                if m > 2147483648u64 {
                    proof {
                        assert forall|e: i32| !i32_at(s@, pos as int, e) by {
                            if i32_at(s@, pos as int, e) {
                                lemma_i32_sign(s@, pos as int, e);
                                assert(e < 0);
                                let mu = ((-(e as int)) as nat) as u64;
                                assert(u64_at(s@, from as int, mu));
                                assert(m == mu);
                            }
                        }
                    }
                    None
                } else {
                    let val: i32 = if m == 2147483648u64 {
                        i32::MIN
                    } else {
                        -(m as i32)
                    };
                    proof {
                        assert forall|e: i32|
                            i32_at(s@, pos as int, e) implies val == e && q == pos + int_digits(
                            e as int,
                        ).len() by {
                            lemma_i32_sign(s@, pos as int, e);
                            let mu = ((-(e as int)) as nat) as u64;
                            assert(u64_at(s@, from as int, mu));
                            assert(m == mu);
                        }
                    }
                    Some((val, q))
                }
            } else {
                if m > 2147483647u64 {
                    proof {
                        assert forall|e: i32| !i32_at(s@, pos as int, e) by {
                            if i32_at(s@, pos as int, e) {
                                lemma_i32_sign(s@, pos as int, e);
                                assert(u64_at(s@, from as int, e as u64));
                                assert(m == e as u64);
                            }
                        }
                    }
                    None
                } else {
                    proof {
                        assert forall|e: i32|
                            i32_at(s@, pos as int, e) implies m == e && q == pos + int_digits(
                            e as int,
                        ).len() by {
                            lemma_i32_sign(s@, pos as int, e);
                            assert(u64_at(s@, from as int, e as u64));
                        }
                    }
                    Some((m as i32, q))
                }
            }
        },
        None => {
            proof {
                assert forall|e: i32| !i32_at(s@, pos as int, e) by {
                    if i32_at(s@, pos as int, e) {
                        lemma_i32_sign(s@, pos as int, e);
                        if e < 0 {
                            let mu = ((-(e as int)) as nat) as u64;
                            assert(u64_at(s@, from as int, mu));
                        } else {
                            assert(u64_at(s@, from as int, e as u64));
                        }
                    }
                }
            }
            None
        },
    }
}

// ------------------------------------------------------------------
// Concatenation helpers
// ------------------------------------------------------------------

/// Pointwise view of a match: each character of `t` stands at its
/// offset in `s`.
pub proof fn lemma_matches_chars(s: Seq<char>, pos: int, t: Seq<char>)
    requires
        matches_at(s, pos, t),
    ensures
        forall|k: int| pos <= k < pos + t.len() ==> #[trigger] s[k] == t[k - pos],
{
    assert forall|k: int| pos <= k < pos + t.len() implies #[trigger] s[k] == t[k - pos] by {
        assert(s[k] == s.subrange(pos, pos + t.len())[k - pos]);
    }
}

/// A match of a concatenation splits into matches of its parts.
pub proof fn lemma_matches_split(s: Seq<char>, pos: int, a: Seq<char>, b: Seq<char>)
    requires
        matches_at(s, pos, a + b),
    ensures
        matches_at(s, pos, a),
        matches_at(s, pos + a.len(), b),
{
    lemma_matches_chars(s, pos, a + b);
    assert(s.subrange(pos, pos + a.len()) =~= a);
    assert(s.subrange(pos + a.len(), pos + a.len() + b.len()) =~= b);
}

// ------------------------------------------------------------------
// The service object
// ------------------------------------------------------------------

pub open spec fn svc_safe(entries: Seq<(Seq<char>, u32)>) -> bool {
    forall|i: int| 0 <= i < entries.len() ==> json_safe((#[trigger] entries[i]).0)
}

/// Split one service entry match into its four parts and the facts the
/// scanners need.
proof fn lemma_svc_entry_layout(s: Seq<char>, pos: int, e: (Seq<char>, u32), rest: Seq<char>)
    requires
        matches_at(s, pos, svc_entry_json(e) + rest),
        rest.len() > 0,
        !crate::strutil::is_digit(rest[0]),
    ensures
        matches_at(s, pos, ("\"")@),
        matches_at(s, pos + 1, e.0),
        pos + 1 + e.0.len() < s.len(),
        s[pos + 1 + e.0.len()] == '"',
        matches_at(s, pos + 1 + e.0.len(), ("\":")@),
        u64_at(s, pos + 3 + e.0.len(), e.1 as u64),
        matches_at(s, pos + svc_entry_json(e).len(), rest),
        ("\"")@.len() == 1,
        ("\":")@.len() == 2,
{
    reveal_strlit("\"");
    reveal_strlit("\":");
    let q = ("\"")@;
    let qc = ("\":")@;
    let dd = dec_digits(e.1 as nat);
    lemma_matches_split(s, pos, svc_entry_json(e), rest);
    lemma_matches_split(s, pos, q + e.0 + qc, dd);
    lemma_matches_split(s, pos, q + e.0, qc);
    lemma_matches_split(s, pos, q, e.0);
    lemma_matches_chars(s, pos + 1 + e.0.len(), qc);
    lemma_matches_chars(s, pos + 3 + e.0.len(), dd);
    lemma_matches_chars(s, pos + svc_entry_json(e).len(), rest);
    assert(s[pos + 3 + e.0.len() + dd.len()] == rest[0]);
}

/// Scan the entries after the first one: comma-led entries up to and
/// including the closing brace.
fn scan_svc_tail(s: &str, pos: usize) -> (r: Option<(Vec<(String, u32)>, usize)>)
    requires
        pos <= s@.len(),
    ensures
        r matches Some(x) ==> pos < x.1 <= s@.len(),
        forall|entries: Seq<(Seq<char>, u32)>|
            svc_safe(entries) && matches_at(s@, pos as int, svc_tail_json(entries)) ==> (r is Some
                && svc_views(r->Some_0.0@) == entries && r->Some_0.1 == pos + svc_tail_json(
                entries,
            ).len()),
    decreases s@.len() - pos,
{
    proof {
        reveal_strlit("}");
        reveal_strlit(",");
        reveal_strlit("\"");
        reveal_strlit("\":");
    }
    if let Some(p) = parse_lit(s, pos, "}") {
        let out: Vec<(String, u32)> = Vec::new();
        proof {
            assert forall|entries: Seq<(Seq<char>, u32)>|
                svc_safe(entries) && matches_at(
                    s@,
                    pos as int,
                    svc_tail_json(entries),
                ) implies svc_views(out@) == entries && p == pos + svc_tail_json(
                entries,
            ).len() by {
                lemma_tail_cases(s@, pos as int, entries);
                if entries.len() > 0 {
                    lemma_matches_chars(s@, pos as int, ("}")@);
                    assert(s@[pos as int] == ',' && s@[pos as int] == '}');
                    assert(false);
                } else {
                    assert(svc_views(out@) =~= entries);
                }
            }
        }
        return Some((out, p));
    }
    let p1 = match parse_lit(s, pos, ",") {
        Some(p) => p,
        None => {
            proof {
                assert forall|entries: Seq<(Seq<char>, u32)>|
                    !(svc_safe(entries) && matches_at(s@, pos as int, svc_tail_json(entries))) by {
                    if svc_safe(entries) && matches_at(s@, pos as int, svc_tail_json(entries)) {
                        lemma_tail_cases(s@, pos as int, entries);
                    }
                }
            }
            return None;
        },
    };
    // one entry, then recurse
    let scanned_entry = scan_entry(s, p1);
    match scanned_entry {
        Some((name, score, q2)) => {
            match scan_svc_tail(s, q2) {
                Some((rest, qend)) => {
                    let mut out = rest;
                    out.insert(0, (name, score));
                    proof {
                        assert forall|entries: Seq<(Seq<char>, u32)>|
                            svc_safe(entries) && matches_at(
                                s@,
                                pos as int,
                                svc_tail_json(entries),
                            ) implies svc_views(out@) == entries && qend == pos + svc_tail_json(
                            entries,
                        ).len() by {
                            lemma_tail_cases(s@, pos as int, entries);
                            assert(entries.len() > 0);
                            let e0 = entries[0];
                            let rest_e = entries.drop_first();
                            lemma_entry_then_tail(s@, p1 as int, e0, rest_e);
                            assert(name@ == e0.0 && score == e0.1);
                            assert(q2 == p1 + svc_entry_json(e0).len());
                            assert(matches_at(s@, q2 as int, svc_tail_json(rest_e)));
                            assert(svc_safe(rest_e));
                            assert(svc_views(rest@) == rest_e);
                            rest@.insert_ensures(0, (name, score));
                            assert forall|j: int|
                                0 <= j < entries.len() implies svc_views(out@)[j] == entries[j] by {
                                if j == 0 {
                                    assert(out@[0] == (name, score));
                                } else {
                                    assert(out@[(j - 1) + 1] == rest@[j - 1]);
                                    assert(svc_views(rest@)[j - 1] == rest_e[j - 1]);
                                }
                            }
                            assert(svc_views(out@) =~= entries);
                        }
                    }
                    Some((out, qend))
                },
                None => {
                    proof {
                        assert forall|entries: Seq<(Seq<char>, u32)>|
                            !(svc_safe(entries) && matches_at(
                                s@,
                                pos as int,
                                svc_tail_json(entries),
                            )) by {
                            if svc_safe(entries) && matches_at(
                                s@,
                                pos as int,
                                svc_tail_json(entries),
                            ) {
                                lemma_tail_cases(s@, pos as int, entries);
                                assert(entries.len() > 0);
                                let e0 = entries[0];
                                let rest_e = entries.drop_first();
                                lemma_entry_then_tail(s@, p1 as int, e0, rest_e);
                                assert(q2 == p1 + svc_entry_json(e0).len());
                                assert(matches_at(s@, q2 as int, svc_tail_json(rest_e)));
                                assert(svc_safe(rest_e));
                            }
                        }
                    }
                    None
                },
            }
        },
        None => {
            proof {
                assert forall|entries: Seq<(Seq<char>, u32)>|
                    !(svc_safe(entries) && matches_at(s@, pos as int, svc_tail_json(entries))) by {
                    if svc_safe(entries) && matches_at(s@, pos as int, svc_tail_json(entries)) {
                        lemma_tail_cases(s@, pos as int, entries);
                        assert(entries.len() > 0);
                        let e0 = entries[0];
                        let rest_e = entries.drop_first();
                        lemma_entry_then_tail(s@, p1 as int, e0, rest_e);
                    }
                }
            }
            None
        },
    }
}

/// What a service-tail match means, by whether entries remain.
proof fn lemma_tail_cases(s: Seq<char>, pos: int, entries: Seq<(Seq<char>, u32)>)
    requires
        matches_at(s, pos, svc_tail_json(entries)),
    ensures
        ("}")@.len() == 1,
        (",")@.len() == 1,
        entries.len() == 0 ==> matches_at(s, pos, ("}")@) && s[pos] == '}',
        entries.len() > 0 ==> matches_at(s, pos, (",")@) && s[pos] == ',' && matches_at(
            s,
            pos + 1,
            svc_entry_json(entries[0]) + svc_tail_json(entries.drop_first()),
        ),
{
    reveal_strlit("}");
    reveal_strlit(",");
    if entries.len() == 0 {
        lemma_matches_chars(s, pos, svc_tail_json(entries));
    } else {
        let e0 = entries[0];
        let rest = entries.drop_first();
        assert((",")@ + (svc_entry_json(e0) + svc_tail_json(rest)) =~= svc_tail_json(entries));
        lemma_matches_split(s, pos, (",")@, svc_entry_json(e0) + svc_tail_json(rest));
        lemma_matches_chars(s, pos, (",")@);
    }
}

/// The hypotheses `scan_entry` needs, derived from an entry-then-tail
/// match.
proof fn lemma_entry_then_tail(s: Seq<char>, pos: int, e: (Seq<char>, u32), rest: Seq<(Seq<char>, u32)>)
    requires
        matches_at(s, pos, svc_entry_json(e) + svc_tail_json(rest)),
        json_safe(e.0),
    ensures
        entry_at(s, pos, e),
        matches_at(s, pos + svc_entry_json(e).len(), svc_tail_json(rest)),
{
    reveal_strlit("}");
    reveal_strlit(",");
    let t = svc_tail_json(rest);
    assert(t.len() > 0 && !crate::strutil::is_digit(t[0])) by {
        if rest.len() > 0 {
            assert(t[0] == (",")@[0]) by {
                assert(t == (",")@ + (svc_entry_json(rest[0]) + svc_tail_json(
                    rest.drop_first(),
                )) || t == (",")@ + svc_entry_json(rest[0]) + svc_tail_json(rest.drop_first()));
            }
        }
    }
    lemma_svc_entry_layout(s, pos, e, t);
}

/// A complete service entry stands at `pos`, with something after it
/// that is not a digit.
pub open spec fn entry_at(s: Seq<char>, pos: int, e: (Seq<char>, u32)) -> bool {
    &&& matches_at(s, pos, ("\"")@)
    &&& matches_at(s, pos + 1, e.0)
    &&& pos + 1 + e.0.len() < s.len()
    &&& s[pos + 1 + e.0.len()] == '"'
    &&& matches_at(s, pos + 1 + e.0.len(), ("\":")@)
    &&& u64_at(s, pos + 3 + e.0.len(), e.1 as u64)
    &&& ("\"")@.len() == 1
    &&& ("\":")@.len() == 2
}

/// Scan one `"name":score` entry.
fn scan_entry(s: &str, pos: usize) -> (r: Option<(String, u32, usize)>)
    requires
        pos <= s@.len(),
    ensures
        r matches Some(x) ==> pos < x.2 <= s@.len(),
        forall|e: (Seq<char>, u32)|
            json_safe(e.0) && entry_at(s@, pos as int, e) ==> (r is Some && r->Some_0.0@ == e.0
                && r->Some_0.1 == e.1 && r->Some_0.2 == pos + svc_entry_json(e).len()),
{
    let p1 = match parse_lit(s, pos, "\"") {
        Some(p) => p,
        None => {
            return None;
        },
    };
    proof {
        reveal_strlit("\"");
    }
    let (name, q1) = match scan_field(s, p1) {
        Some(x) => x,
        None => {
            return None;
        },
    };
    let p2 = match parse_lit(s, q1, "\":") {
        Some(p) => p,
        None => {
            proof {
                assert forall|e: (Seq<char>, u32)|
                    !(json_safe(e.0) && entry_at(s@, pos as int, e)) by {
                    if json_safe(e.0) && entry_at(s@, pos as int, e) {
                        assert(name@ == e.0 && q1 == pos + 1 + e.0.len());
                    }
                }
            }
            return None;
        },
    };
    proof {
        reveal_strlit("\":");
    }
    let (m, q2) = match scan_u64(s, p2) {
        Some(x) => x,
        None => {
            proof {
                assert forall|e: (Seq<char>, u32)|
                    !(json_safe(e.0) && entry_at(s@, pos as int, e)) by {
                    if json_safe(e.0) && entry_at(s@, pos as int, e) {
                        assert(name@ == e.0 && q1 == pos + 1 + e.0.len());
                        assert(u64_at(s@, p2 as int, e.1 as u64));
                    }
                }
            }
            return None;
        },
    };
    if m > 4294967295u64 {
        proof {
            assert forall|e: (Seq<char>, u32)| !(json_safe(e.0) && entry_at(s@, pos as int, e)) by {
                if json_safe(e.0) && entry_at(s@, pos as int, e) {
                    assert(name@ == e.0 && q1 == pos + 1 + e.0.len());
                    assert(u64_at(s@, p2 as int, e.1 as u64));
                    assert(m == e.1 as u64);
                }
            }
        }
        return None;
    }
    proof {
        assert forall|e: (Seq<char>, u32)|
            json_safe(e.0) && entry_at(s@, pos as int, e) implies name@ == e.0 && m == e.1 as u64
            && q2 == pos + svc_entry_json(e).len() by {
            assert(name@ == e.0 && q1 == pos + 1 + e.0.len());
            assert(u64_at(s@, p2 as int, e.1 as u64));
        }
    }
    Some((name, m as u32, q2))
}

/// Scan the whole service object.
fn scan_services(s: &str, pos: usize) -> (r: Option<(Vec<(String, u32)>, usize)>)
    requires
        pos <= s@.len(),
    ensures
        r matches Some(x) ==> pos <= x.1 <= s@.len(),
        forall|entries: Seq<(Seq<char>, u32)>|
            svc_safe(entries) && matches_at(s@, pos as int, svc_json(entries)) ==> (r is Some
                && svc_views(r->Some_0.0@) == entries && r->Some_0.1 == pos + svc_json(
                entries,
            ).len()),
{
    proof {
        reveal_strlit("{}");
        reveal_strlit("{");
        reveal_strlit("}");
        reveal_strlit("\"");
    }
    if let Some(p) = parse_lit(s, pos, "{}") {
        let out: Vec<(String, u32)> = Vec::new();
        proof {
            assert forall|entries: Seq<(Seq<char>, u32)>|
                svc_safe(entries) && matches_at(s@, pos as int, svc_json(entries)) implies (
            svc_views(out@) == entries && p == pos + svc_json(entries).len()) by {
                lemma_json_cases(s@, pos as int, entries);
                if entries.len() > 0 {
                    lemma_matches_chars(s@, pos as int, ("{}")@);
                    assert(s@[pos + 1] == '}' && s@[pos + 1] == '"');
                    assert(false);
                } else {
                    assert(svc_views(out@) =~= entries);
                }
            }
        }
        return Some((out, p));
    }
    let p1 = match parse_lit(s, pos, "{") {
        Some(p) => p,
        None => {
            proof {
                assert forall|entries: Seq<(Seq<char>, u32)>|
                    !(svc_safe(entries) && matches_at(s@, pos as int, svc_json(entries))) by {
                    if svc_safe(entries) && matches_at(s@, pos as int, svc_json(entries)) {
                        lemma_json_cases(s@, pos as int, entries);
                        if entries.len() == 0 {
                            lemma_matches_chars(s@, pos as int, ("{}")@);
                            assert(matches_at(s@, pos as int, ("{")@)) by {
                                assert(s@.subrange(pos as int, pos + 1) =~= ("{")@);
                            }
                        }
                    }
                }
            }
            return None;
        },
    };
    let scanned_entry = scan_entry(s, p1);
    match scanned_entry {
        Some((name, score, q2)) => {
            match scan_svc_tail(s, q2) {
                Some((rest, qend)) => {
                    let mut out = rest;
                    out.insert(0, (name, score));
                    proof {
                        assert forall|entries: Seq<(Seq<char>, u32)>|
                            svc_safe(entries) && matches_at(
                                s@,
                                pos as int,
                                svc_json(entries),
                            ) implies svc_views(out@) == entries && qend == pos + svc_json(
                            entries,
                        ).len() by {
                            lemma_json_cases(s@, pos as int, entries);
                            assert(entries.len() > 0) by {
                                if entries.len() == 0 {
                                    lemma_matches_chars(s@, pos as int, ("{}")@);
                                }
                            }
                            let e0 = entries[0];
                            let rest_e = entries.drop_first();
                            lemma_entry_then_tail(s@, p1 as int, e0, rest_e);
                            assert(name@ == e0.0 && score == e0.1);
                            assert(q2 == p1 + svc_entry_json(e0).len());
                            assert(matches_at(s@, q2 as int, svc_tail_json(rest_e)));
                            assert(svc_safe(rest_e));
                            assert(svc_views(rest@) == rest_e);
                            rest@.insert_ensures(0, (name, score));
                            assert forall|j: int|
                                0 <= j < entries.len() implies svc_views(out@)[j] == entries[j] by {
                                if j == 0 {
                                    assert(out@[0] == (name, score));
                                } else {
                                    assert(out@[(j - 1) + 1] == rest@[j - 1]);
                                    assert(svc_views(rest@)[j - 1] == rest_e[j - 1]);
                                }
                            }
                            assert(svc_views(out@) =~= entries);
                        }
                    }
                    Some((out, qend))
                },
                None => {
                    proof {
                        assert forall|entries: Seq<(Seq<char>, u32)>|
                            !(svc_safe(entries) && matches_at(s@, pos as int, svc_json(entries)))
                            by {
                            if svc_safe(entries) && matches_at(s@, pos as int, svc_json(entries)) {
                                lemma_json_cases(s@, pos as int, entries);
                                assert(entries.len() > 0) by {
                                    if entries.len() == 0 {
                                        lemma_matches_chars(s@, pos as int, ("{}")@);
                                    }
                                }
                                let e0 = entries[0];
                                let rest_e = entries.drop_first();
                                lemma_entry_then_tail(s@, p1 as int, e0, rest_e);
                                assert(q2 == p1 + svc_entry_json(e0).len());
                                assert(matches_at(s@, q2 as int, svc_tail_json(rest_e)));
                                assert(svc_safe(rest_e));
                            }
                        }
                    }
                    None
                },
            }
        },
        None => {
            proof {
                assert forall|entries: Seq<(Seq<char>, u32)>|
                    !(svc_safe(entries) && matches_at(s@, pos as int, svc_json(entries))) by {
                    if svc_safe(entries) && matches_at(s@, pos as int, svc_json(entries)) {
                        lemma_json_cases(s@, pos as int, entries);
                        assert(entries.len() > 0) by {
                            if entries.len() == 0 {
                                lemma_matches_chars(s@, pos as int, ("{}")@);
                            }
                        }
                        let e0 = entries[0];
                        let rest_e = entries.drop_first();
                        lemma_entry_then_tail(s@, p1 as int, e0, rest_e);
                    }
                }
            }
            None
        },
    }
}

/// What a service-object match means, by whether it has entries.
proof fn lemma_json_cases(s: Seq<char>, pos: int, entries: Seq<(Seq<char>, u32)>)
    requires
        matches_at(s, pos, svc_json(entries)),
    ensures
        ("{}")@.len() == 2,
        ("{")@.len() == 1,
        entries.len() == 0 ==> matches_at(s, pos, ("{}")@) && s[pos + 1] == '}',
        entries.len() > 0 ==> matches_at(s, pos, ("{")@) && matches_at(
            s,
            pos + 1,
            svc_entry_json(entries[0]) + svc_tail_json(entries.drop_first()),
        ) && s[pos + 1] == '"',
{
    reveal_strlit("{}");
    reveal_strlit("{");
    reveal_strlit("\"");
    if entries.len() == 0 {
        lemma_matches_chars(s, pos, svc_json(entries));
    } else {
        let e0 = entries[0];
        let rest = entries.drop_first();
        assert(("{")@ + (svc_entry_json(e0) + svc_tail_json(rest)) =~= svc_json(entries));
        lemma_matches_split(s, pos, ("{")@, svc_entry_json(e0) + svc_tail_json(rest));
        lemma_matches_chars(s, pos + 1, svc_entry_json(e0) + svc_tail_json(rest));
        assert((svc_entry_json(e0) + svc_tail_json(rest))[0] == ("\"")@[0]);
    }
}

// ------------------------------------------------------------------
// Document layout
// ------------------------------------------------------------------

pub open spec fn off_stack(v: RecordV) -> int {
    ("{\"stack\":\"")@.len() as int
}

pub open spec fn off_ts(v: RecordV) -> int {
    off_stack(v) + v.stack.len() + ("\",\"timestamp\":\"")@.len()
}

pub open spec fn off_dur(v: RecordV) -> int {
    off_ts(v) + v.timestamp.len() + ("\",\"duration_seconds\":")@.len()
}

pub open spec fn off_ready(v: RecordV) -> int {
    off_dur(v) + dec_digits(v.duration_seconds as nat).len() + (",\"readiness\":")@.len()
}

pub open spec fn off_conf(v: RecordV) -> int {
    off_ready(v) + opt_u32_json(v.readiness).len() + (",\"confidence\":")@.len()
}

pub open spec fn off_risk(v: RecordV) -> int {
    off_conf(v) + dec_digits(v.confidence as nat).len() + (",\"risk\":\"")@.len()
}

pub open spec fn off_exit(v: RecordV) -> int {
    off_risk(v) + v.risk.len() + ("\",\"exit_code\":")@.len()
}

pub open spec fn off_svc(v: RecordV) -> int {
    off_exit(v) + int_digits(v.exit_code as int).len() + (",\"services\":")@.len()
}

pub open spec fn off_hash(v: RecordV) -> int {
    off_svc(v) + svc_json(v.services).len() + (",\"hash\":")@.len()
}

/// `s` is the document of the well-formed record value `v`.
pub open spec fn doc_of(s: Seq<char>, v: RecordV) -> bool {
    record_wf(v) && s == record_json(v)
}

/// Where each part of the document stands, and the character facts the
/// scanners need at the part boundaries.
pub open spec fn record_layout(s: Seq<char>, v: RecordV) -> bool {
    &&& matches_at(s, 0, ("{\"stack\":\"")@)
    &&& matches_at(s, off_stack(v), v.stack)
    &&& off_stack(v) + v.stack.len() < s.len()
    &&& s[off_stack(v) + v.stack.len()] == '"'
    &&& matches_at(s, off_stack(v) + v.stack.len(), ("\",\"timestamp\":\"")@)
    &&& matches_at(s, off_ts(v), v.timestamp)
    &&& off_ts(v) + v.timestamp.len() < s.len()
    &&& s[off_ts(v) + v.timestamp.len()] == '"'
    &&& matches_at(s, off_ts(v) + v.timestamp.len(), ("\",\"duration_seconds\":")@)
    &&& u64_at(s, off_dur(v), v.duration_seconds)
    &&& matches_at(
        s,
        off_dur(v) + dec_digits(v.duration_seconds as nat).len(),
        (",\"readiness\":")@,
    )
    &&& (v.readiness is None ==> matches_at(s, off_ready(v), ("null")@))
    &&& (v.readiness matches Some(n) ==> u64_at(s, off_ready(v), n as u64) && off_ready(v)
        < s.len() && crate::strutil::is_digit(s[off_ready(v)]))
    &&& matches_at(s, off_ready(v) + opt_u32_json(v.readiness).len(), (",\"confidence\":")@)
    &&& u64_at(s, off_conf(v), v.confidence as u64)
    &&& matches_at(s, off_conf(v) + dec_digits(v.confidence as nat).len(), (",\"risk\":\"")@)
    &&& matches_at(s, off_risk(v), v.risk)
    &&& off_risk(v) + v.risk.len() < s.len()
    &&& s[off_risk(v) + v.risk.len()] == '"'
    &&& matches_at(s, off_risk(v) + v.risk.len(), ("\",\"exit_code\":")@)
    &&& i32_at(s, off_exit(v), v.exit_code)
    &&& matches_at(s, off_exit(v) + int_digits(v.exit_code as int).len(), (",\"services\":")@)
    &&& matches_at(s, off_svc(v), svc_json(v.services))
    &&& matches_at(s, off_svc(v) + svc_json(v.services).len(), (",\"hash\":")@)
    &&& (v.hash is None ==> matches_at(s, off_hash(v), ("null")@))
    &&& (v.hash matches Some(h) ==> matches_at(s, off_hash(v), ("\"")@) && matches_at(
        s,
        off_hash(v) + 1,
        h,
    ) && off_hash(v) + 1 + h.len() < s.len() && s[off_hash(v) + 1 + h.len()] == '"' && matches_at(
        s,
        off_hash(v) + 1 + h.len(),
        ("\"")@,
    ) && off_hash(v) < s.len() && s[off_hash(v)] == '"')
    &&& matches_at(s, off_hash(v) + opt_str_json(v.hash).len(), ("}")@)
    &&& s.len() == off_hash(v) + opt_str_json(v.hash).len() + ("}")@.len()
    &&& ("\"")@.len() == 1
    &&& ("null")@.len() == 4
    &&& ("null")@[0] == 'n'
    &&& ("}")@.len() == 1
}

/// Front half of the layout: everything through the risk field.
#[verifier::rlimit(100)]
proof fn lemma_layout_front(s: Seq<char>, v: RecordV)
    requires
        doc_of(s, v),
    ensures
        matches_at(s, 0, ("{\"stack\":\"")@),
        matches_at(s, off_stack(v), v.stack),
        off_stack(v) + v.stack.len() < s.len(),
        s[off_stack(v) + v.stack.len()] == '"',
        matches_at(s, off_stack(v) + v.stack.len(), ("\",\"timestamp\":\"")@),
        matches_at(s, off_ts(v), v.timestamp),
        off_ts(v) + v.timestamp.len() < s.len(),
        s[off_ts(v) + v.timestamp.len()] == '"',
        matches_at(s, off_ts(v) + v.timestamp.len(), ("\",\"duration_seconds\":")@),
        u64_at(s, off_dur(v), v.duration_seconds),
        matches_at(
            s,
            off_dur(v) + dec_digits(v.duration_seconds as nat).len(),
            (",\"readiness\":")@,
        ),
        v.readiness is None ==> matches_at(s, off_ready(v), ("null")@),
        v.readiness matches Some(n) ==> u64_at(s, off_ready(v), n as u64) && off_ready(v) < s.len()
            && crate::strutil::is_digit(s[off_ready(v)]),
        matches_at(s, off_ready(v) + opt_u32_json(v.readiness).len(), (",\"confidence\":")@),
        u64_at(s, off_conf(v), v.confidence as u64),
        matches_at(s, off_conf(v) + dec_digits(v.confidence as nat).len(), (",\"risk\":\"")@),
        matches_at(s, off_risk(v), rj11(v)),
        off_risk(v) + rj11(v).len() == s.len(),
        ("null")@.len() == 4,
        ("null")@[0] == 'n',
{
    reveal_strlit("{\"stack\":\"");
    reveal_strlit("\",\"timestamp\":\"");
    reveal_strlit("\",\"duration_seconds\":");
    reveal_strlit(",\"readiness\":");
    reveal_strlit(",\"confidence\":");
    reveal_strlit(",\"risk\":\"");
    reveal_strlit("null");
    assert(matches_at(s, 0, record_json(v))) by {
        assert(s.subrange(0, record_json(v).len() as int) =~= record_json(v));
    }
    lemma_matches_split(s, 0, ("{\"stack\":\"")@, rj1(v));
    lemma_matches_split(s, off_stack(v), v.stack, rj2(v));
    let a2 = off_stack(v) + v.stack.len();
    lemma_matches_split(s, a2, ("\",\"timestamp\":\"")@, rj3(v));
    lemma_matches_chars(s, a2, ("\",\"timestamp\":\"")@);
    lemma_matches_split(s, off_ts(v), v.timestamp, rj4(v));
    let a4 = off_ts(v) + v.timestamp.len();
    lemma_matches_split(s, a4, ("\",\"duration_seconds\":")@, rj5(v));
    lemma_matches_chars(s, a4, ("\",\"duration_seconds\":")@);
    lemma_matches_split(s, off_dur(v), dec_digits(v.duration_seconds as nat), rj6(v));
    let a6 = off_dur(v) + dec_digits(v.duration_seconds as nat).len();
    lemma_matches_split(s, a6, (",\"readiness\":")@, rj7(v));
    lemma_matches_chars(s, a6, (",\"readiness\":")@);
    assert(u64_at(s, off_dur(v), v.duration_seconds));
    lemma_matches_split(s, off_ready(v), opt_u32_json(v.readiness), rj8(v));
    match v.readiness {
        Some(n) => {
            crate::strutil::lemma_dec_digits_all_digits(n as nat);
            lemma_matches_chars(s, off_ready(v), dec_digits(n as nat));
        },
        None => {},
    }
    let a8 = off_ready(v) + opt_u32_json(v.readiness).len();
    lemma_matches_split(s, a8, (",\"confidence\":")@, rj9(v));
    lemma_matches_chars(s, a8, (",\"confidence\":")@);
    lemma_matches_split(s, off_conf(v), dec_digits(v.confidence as nat), rj10(v));
    let a10 = off_conf(v) + dec_digits(v.confidence as nat).len();
    lemma_matches_split(s, a10, (",\"risk\":\"")@, rj11(v));
    lemma_matches_chars(s, a10, (",\"risk\":\"")@);
    assert(u64_at(s, off_conf(v), v.confidence as u64));
}

/// Back half of the layout: from the risk field to the closing brace.
#[verifier::rlimit(100)]
proof fn lemma_layout_back(s: Seq<char>, v: RecordV)
    requires
        record_wf(v),
        matches_at(s, off_risk(v), rj11(v)),
        off_risk(v) + rj11(v).len() == s.len(),
    ensures
        matches_at(s, off_risk(v), v.risk),
        off_risk(v) + v.risk.len() < s.len(),
        s[off_risk(v) + v.risk.len()] == '"',
        matches_at(s, off_risk(v) + v.risk.len(), ("\",\"exit_code\":")@),
        i32_at(s, off_exit(v), v.exit_code),
        matches_at(s, off_exit(v) + int_digits(v.exit_code as int).len(), (",\"services\":")@),
        matches_at(s, off_svc(v), svc_json(v.services)),
        matches_at(s, off_svc(v) + svc_json(v.services).len(), (",\"hash\":")@),
        v.hash is None ==> matches_at(s, off_hash(v), ("null")@),
        v.hash matches Some(h) ==> matches_at(s, off_hash(v), ("\"")@) && matches_at(
            s,
            off_hash(v) + 1,
            h,
        ) && off_hash(v) + 1 + h.len() < s.len() && s[off_hash(v) + 1 + h.len()] == '"'
            && matches_at(s, off_hash(v) + 1 + h.len(), ("\"")@) && off_hash(v) < s.len() && s[
        off_hash(v)] == '"',
        matches_at(s, off_hash(v) + opt_str_json(v.hash).len(), ("}")@),
        s.len() == off_hash(v) + opt_str_json(v.hash).len() + ("}")@.len(),
        ("\"")@.len() == 1,
        ("null")@.len() == 4,
        ("null")@[0] == 'n',
        ("}")@.len() == 1,
{
    reveal_strlit("\",\"exit_code\":");
    reveal_strlit(",\"services\":");
    reveal_strlit(",\"hash\":");
    reveal_strlit("null");
    reveal_strlit("\"");
    reveal_strlit("}");
    lemma_matches_split(s, off_risk(v), v.risk, rj12(v));
    let a12 = off_risk(v) + v.risk.len();
    lemma_matches_split(s, a12, ("\",\"exit_code\":")@, rj13(v));
    lemma_matches_chars(s, a12, ("\",\"exit_code\":")@);
    lemma_matches_split(s, off_exit(v), int_digits(v.exit_code as int), rj14(v));
    let a14 = off_exit(v) + int_digits(v.exit_code as int).len();
    lemma_matches_split(s, a14, (",\"services\":")@, rj15(v));
    lemma_matches_chars(s, a14, (",\"services\":")@);
    assert(i32_at(s, off_exit(v), v.exit_code));
    lemma_matches_split(s, off_svc(v), svc_json(v.services), rj16(v));
    let a16 = off_svc(v) + svc_json(v.services).len();
    lemma_matches_split(s, a16, (",\"hash\":")@, rj17(v));
    lemma_matches_split(s, off_hash(v), opt_str_json(v.hash), ("}")@);
    match v.hash {
        Some(h) => {
            assert(opt_str_json(v.hash) == ("\"")@ + h + ("\"")@);
            lemma_matches_split(s, off_hash(v), ("\"")@ + h, ("\"")@);
            lemma_matches_split(s, off_hash(v), ("\"")@, h);
            lemma_matches_chars(s, off_hash(v), ("\"")@);
            lemma_matches_chars(s, off_hash(v) + 1 + h.len(), ("\"")@);
        },
        None => {},
    }
}

/// The document of a well-formed record decomposes as `record_layout`
/// says.
pub proof fn lemma_record_layout(s: Seq<char>, v: RecordV)
    requires
        doc_of(s, v),
    ensures
        record_layout(s, v),
{
    lemma_layout_front(s, v);
    lemma_layout_back(s, v);
}


// ------------------------------------------------------------------
// Optional fields
// ------------------------------------------------------------------

/// An optional number field (`null` or digits) stands at `pos`.
pub open spec fn opt_u32_at(s: Seq<char>, pos: int, o: Option<u32>) -> bool {
    match o {
        None => matches_at(s, pos, ("null")@),
        Some(n) => u64_at(s, pos, n as u64) && pos < s.len() && crate::strutil::is_digit(s[pos]),
    }
}

/// An optional string field (`null` or a quoted string) stands at
/// `pos`.
pub open spec fn opt_str_at(s: Seq<char>, pos: int, o: Option<Seq<char>>) -> bool {
    match o {
        None => matches_at(s, pos, ("null")@),
        Some(h) => json_safe(h) && matches_at(s, pos, ("\"")@) && matches_at(s, pos + 1, h) && pos
            + 1 + h.len() < s.len() && s[pos + 1 + h.len()] == '"' && matches_at(
            s,
            pos + 1 + h.len(),
            ("\"")@,
        ) && pos < s.len() && s[pos] == '"',
    }
}

/// Scan `null` or a run of digits.
fn scan_opt_u32(s: &str, pos: usize) -> (r: Option<(Option<u32>, usize)>)
    requires
        pos <= s@.len(),
    ensures
        r matches Some(x) ==> pos <= x.1 <= s@.len(),
        forall|o: Option<u32>|
            opt_u32_at(s@, pos as int, o) ==> (r is Some && r->Some_0.0 == o && r->Some_0.1 == pos
                + opt_u32_json(o).len()),
{
    proof {
        reveal_strlit("null");
    }
    if let Some(p) = parse_lit(s, pos, "null") {
        proof {
            assert forall|o: Option<u32>|
                opt_u32_at(s@, pos as int, o) implies o is None && p == pos + opt_u32_json(
                o,
            ).len() by {
                if o matches Some(n) {
                    lemma_matches_chars(s@, pos as int, ("null")@);
                    assert(s@[pos as int] == 'n');
                    assert(false);
                }
            }
        }
        return Some((None, p));
    }
    match scan_u64(s, pos) {
        Some((m, q)) => {
            if m > 4294967295u64 {
                proof {
                    assert forall|o: Option<u32>| !opt_u32_at(s@, pos as int, o) by {
                        if opt_u32_at(s@, pos as int, o) {
                            match o {
                                Some(n) => {
                                    assert(m == n as u64);
                                },
                                None => {},
                            }
                        }
                    }
                }
                None
            } else {
                proof {
                    assert forall|o: Option<u32>|
                        opt_u32_at(s@, pos as int, o) implies o matches Some(n) && m == n as u64
                        && q == pos + opt_u32_json(o).len() by {}
                }
                Some((Some(m as u32), q))
            }
        },
        None => {
            proof {
                assert forall|o: Option<u32>| !opt_u32_at(s@, pos as int, o) by {}
            }
            None
        },
    }
}

/// Scan `null` or a quoted string.
fn scan_opt_str(s: &str, pos: usize) -> (r: Option<(Option<String>, usize)>)
    requires
        pos <= s@.len(),
    ensures
        r matches Some(x) ==> pos <= x.1 <= s@.len(),
        forall|o: Option<Seq<char>>|
            opt_str_at(s@, pos as int, o) ==> (r is Some && opt_view(r->Some_0.0) == o
                && r->Some_0.1 == pos + opt_str_json(o).len()),
{
    proof {
        reveal_strlit("null");
        reveal_strlit("\"");
    }
    if let Some(p) = parse_lit(s, pos, "null") {
        proof {
            assert forall|o: Option<Seq<char>>|
                opt_str_at(s@, pos as int, o) implies o is None && p == pos + opt_str_json(
                o,
            ).len() by {
                if o matches Some(h) {
                    lemma_matches_chars(s@, pos as int, ("null")@);
                    assert(s@[pos as int] == 'n');
                    assert(false);
                }
            }
        }
        return Some((None, p));
    }
    let p1 = match parse_lit(s, pos, "\"") {
        Some(p) => p,
        None => {
            proof {
                assert forall|o: Option<Seq<char>>| !opt_str_at(s@, pos as int, o) by {}
            }
            return None;
        },
    };
    let (h, q1) = match scan_field(s, p1) {
        Some(x) => x,
        None => {
            proof {
                assert forall|o: Option<Seq<char>>| !opt_str_at(s@, pos as int, o) by {}
            }
            return None;
        },
    };
    match parse_lit(s, q1, "\"") {
        Some(p2) => {
            proof {
                assert forall|o: Option<Seq<char>>|
                    opt_str_at(s@, pos as int, o) implies o matches Some(h0) && h@ == h0 && p2
                    == pos + opt_str_json(o).len() by {
                    match o {
                        Some(h0) => {
                            assert(h@ == h0 && q1 == pos + 1 + h0.len());
                        },
                        None => {
                            lemma_matches_chars(s@, pos as int, ("null")@);
                            assert(false);
                        },
                    }
                }
            }
            Some((Some(h), p2))
        },
        None => {
            proof {
                assert forall|o: Option<Seq<char>>| !opt_str_at(s@, pos as int, o) by {
                    if opt_str_at(s@, pos as int, o) {
                        match o {
                            Some(h0) => {
                                assert(h@ == h0 && q1 == pos + 1 + h0.len());
                            },
                            None => {
                                lemma_matches_chars(s@, pos as int, ("null")@);
                            },
                        }
                    }
                }
            }
            None
        },
    }
}

// ------------------------------------------------------------------
// The whole document scanner
// ------------------------------------------------------------------

/// Scan a whole document.  On any input that is the rendering of a
/// well-formed record, the scan succeeds and recovers that record.
#[verifier::rlimit(100)]
fn scan_record(s: &str) -> (r: Option<RunRecord>)
    ensures
        forall|v: RecordV| doc_of(s@, v) ==> (r is Some && r->Some_0@ == v),
{
    let n = s.unicode_len();
    let p1 = match parse_lit(s, 0, "{\"stack\":\"") {
        Some(p) => p,
        None => {
            proof {
                assert forall|v: RecordV| !doc_of(s@, v) by {
                    if doc_of(s@, v) {
                        lemma_record_layout(s@, v);
                    }
                }
            }
            return None;
        },
    };
    proof {
        assert forall|v: RecordV| doc_of(s@, v) implies p1 == off_stack(v) by {
            lemma_record_layout(s@, v);
        }
    }
    let (stack_f, q1) = match scan_field(s, p1) {
        Some(x) => x,
        None => {
            proof {
                assert forall|v: RecordV| !doc_of(s@, v) by {
                    if doc_of(s@, v) {
                        lemma_record_layout(s@, v);
                        assert(matches_at(s@, p1 as int, v.stack));
                    }
                }
            }
            return None;
        },
    };
    proof {
        assert forall|v: RecordV|
            doc_of(s@, v) implies stack_f@ == v.stack && q1 == off_stack(v) + v.stack.len() by {
            lemma_record_layout(s@, v);
            assert(matches_at(s@, p1 as int, v.stack));
        }
    }
    let p2 = match parse_lit(s, q1, "\",\"timestamp\":\"") {
        Some(p) => p,
        None => {
            proof {
                assert forall|v: RecordV| !doc_of(s@, v) by {
                    if doc_of(s@, v) {
                        lemma_record_layout(s@, v);
                    }
                }
            }
            return None;
        },
    };
    proof {
        assert forall|v: RecordV| doc_of(s@, v) implies p2 == off_ts(v) by {
            lemma_record_layout(s@, v);
        }
    }
    let (ts_f, q2) = match scan_field(s, p2) {
        Some(x) => x,
        None => {
            proof {
                assert forall|v: RecordV| !doc_of(s@, v) by {
                    if doc_of(s@, v) {
                        lemma_record_layout(s@, v);
                        assert(matches_at(s@, p2 as int, v.timestamp));
                    }
                }
            }
            return None;
        },
    };
    proof {
        assert forall|v: RecordV|
            doc_of(s@, v) implies ts_f@ == v.timestamp && q2 == off_ts(v) + v.timestamp.len() by {
            lemma_record_layout(s@, v);
            assert(matches_at(s@, p2 as int, v.timestamp));
        }
    }
    let p3 = match parse_lit(s, q2, "\",\"duration_seconds\":") {
        Some(p) => p,
        None => {
            proof {
                assert forall|v: RecordV| !doc_of(s@, v) by {
                    if doc_of(s@, v) {
                        lemma_record_layout(s@, v);
                    }
                }
            }
            return None;
        },
    };
    proof {
        assert forall|v: RecordV| doc_of(s@, v) implies p3 == off_dur(v) by {
            lemma_record_layout(s@, v);
        }
    }
    let (dur, q3) = match scan_u64(s, p3) {
        Some(x) => x,
        None => {
            proof {
                assert forall|v: RecordV| !doc_of(s@, v) by {
                    if doc_of(s@, v) {
                        lemma_record_layout(s@, v);
                        assert(u64_at(s@, p3 as int, v.duration_seconds));
                    }
                }
            }
            return None;
        },
    };
    proof {
        assert forall|v: RecordV|
            doc_of(s@, v) implies dur == v.duration_seconds && q3 == off_dur(v) + dec_digits(
            v.duration_seconds as nat,
        ).len() by {
            lemma_record_layout(s@, v);
            assert(u64_at(s@, p3 as int, v.duration_seconds));
        }
    }
    let p4 = match parse_lit(s, q3, ",\"readiness\":") {
        Some(p) => p,
        None => {
            proof {
                assert forall|v: RecordV| !doc_of(s@, v) by {
                    if doc_of(s@, v) {
                        lemma_record_layout(s@, v);
                    }
                }
            }
            return None;
        },
    };
    proof {
        assert forall|v: RecordV| doc_of(s@, v) implies p4 == off_ready(v) by {
            lemma_record_layout(s@, v);
        }
    }
    let (ready, q4) = match scan_opt_u32(s, p4) {
        Some(x) => x,
        None => {
            proof {
                assert forall|v: RecordV| !doc_of(s@, v) by {
                    if doc_of(s@, v) {
                        lemma_record_layout(s@, v);
                        assert(opt_u32_at(s@, p4 as int, v.readiness));
                    }
                }
            }
            return None;
        },
    };
    proof {
        assert forall|v: RecordV|
            doc_of(s@, v) implies ready == v.readiness && q4 == off_ready(v) + opt_u32_json(
            v.readiness,
        ).len() by {
            lemma_record_layout(s@, v);
            assert(opt_u32_at(s@, p4 as int, v.readiness));
        }
    }
    let p5 = match parse_lit(s, q4, ",\"confidence\":") {
        Some(p) => p,
        None => {
            proof {
                assert forall|v: RecordV| !doc_of(s@, v) by {
                    if doc_of(s@, v) {
                        lemma_record_layout(s@, v);
                    }
                }
            }
            return None;
        },
    };
    proof {
        assert forall|v: RecordV| doc_of(s@, v) implies p5 == off_conf(v) by {
            lemma_record_layout(s@, v);
        }
    }
    let (conf64, q5) = match scan_u64(s, p5) {
        Some(x) => x,
        None => {
            proof {
                assert forall|v: RecordV| !doc_of(s@, v) by {
                    if doc_of(s@, v) {
                        lemma_record_layout(s@, v);
                        assert(u64_at(s@, p5 as int, v.confidence as u64));
                    }
                }
            }
            return None;
        },
    };
    if conf64 > 4294967295u64 {
        proof {
            assert forall|v: RecordV| !doc_of(s@, v) by {
                if doc_of(s@, v) {
                    lemma_record_layout(s@, v);
                    assert(u64_at(s@, p5 as int, v.confidence as u64));
                }
            }
        }
        return None;
    }
    proof {
        assert forall|v: RecordV|
            doc_of(s@, v) implies conf64 == v.confidence as u64 && q5 == off_conf(v) + dec_digits(
            v.confidence as nat,
        ).len() by {
            lemma_record_layout(s@, v);
            assert(u64_at(s@, p5 as int, v.confidence as u64));
        }
    }
    let p6 = match parse_lit(s, q5, ",\"risk\":\"") {
        Some(p) => p,
        None => {
            proof {
                assert forall|v: RecordV| !doc_of(s@, v) by {
                    if doc_of(s@, v) {
                        lemma_record_layout(s@, v);
                    }
                }
            }
            return None;
        },
    };
    proof {
        assert forall|v: RecordV| doc_of(s@, v) implies p6 == off_risk(v) by {
            lemma_record_layout(s@, v);
        }
    }
    let (risk_f, q6) = match scan_field(s, p6) {
        Some(x) => x,
        None => {
            proof {
                assert forall|v: RecordV| !doc_of(s@, v) by {
                    if doc_of(s@, v) {
                        lemma_record_layout(s@, v);
                        assert(matches_at(s@, p6 as int, v.risk));
                    }
                }
            }
            return None;
        },
    };
    proof {
        assert forall|v: RecordV|
            doc_of(s@, v) implies risk_f@ == v.risk && q6 == off_risk(v) + v.risk.len() by {
            lemma_record_layout(s@, v);
            assert(matches_at(s@, p6 as int, v.risk));
        }
    }
    let p7 = match parse_lit(s, q6, "\",\"exit_code\":") {
        Some(p) => p,
        None => {
            proof {
                assert forall|v: RecordV| !doc_of(s@, v) by {
                    if doc_of(s@, v) {
                        lemma_record_layout(s@, v);
                    }
                }
            }
            return None;
        },
    };
    proof {
        assert forall|v: RecordV| doc_of(s@, v) implies p7 == off_exit(v) by {
            lemma_record_layout(s@, v);
        }
    }
    let (exit_c, q7) = match scan_i32(s, p7) {
        Some(x) => x,
        None => {
            proof {
                assert forall|v: RecordV| !doc_of(s@, v) by {
                    if doc_of(s@, v) {
                        lemma_record_layout(s@, v);
                        assert(i32_at(s@, p7 as int, v.exit_code));
                    }
                }
            }
            return None;
        },
    };
    proof {
        assert forall|v: RecordV|
            doc_of(s@, v) implies exit_c == v.exit_code && q7 == off_exit(v) + int_digits(
            v.exit_code as int,
        ).len() by {
            lemma_record_layout(s@, v);
            assert(i32_at(s@, p7 as int, v.exit_code));
        }
    }
    let p8 = match parse_lit(s, q7, ",\"services\":") {
        Some(p) => p,
        None => {
            proof {
                assert forall|v: RecordV| !doc_of(s@, v) by {
                    if doc_of(s@, v) {
                        lemma_record_layout(s@, v);
                    }
                }
            }
            return None;
        },
    };
    proof {
        assert forall|v: RecordV| doc_of(s@, v) implies p8 == off_svc(v) by {
            lemma_record_layout(s@, v);
        }
    }
    let (svcs, q8) = match scan_services(s, p8) {
        Some(x) => x,
        None => {
            proof {
                assert forall|v: RecordV| !doc_of(s@, v) by {
                    if doc_of(s@, v) {
                        lemma_record_layout(s@, v);
                        assert(svc_safe(v.services));
                        assert(matches_at(s@, p8 as int, svc_json(v.services)));
                    }
                }
            }
            return None;
        },
    };
    proof {
        assert forall|v: RecordV|
            doc_of(s@, v) implies svc_views(svcs@) == v.services && q8 == off_svc(v) + svc_json(
            v.services,
        ).len() by {
            lemma_record_layout(s@, v);
            assert(svc_safe(v.services));
            assert(matches_at(s@, p8 as int, svc_json(v.services)));
        }
    }
    let p9 = match parse_lit(s, q8, ",\"hash\":") {
        Some(p) => p,
        None => {
            proof {
                assert forall|v: RecordV| !doc_of(s@, v) by {
                    if doc_of(s@, v) {
                        lemma_record_layout(s@, v);
                    }
                }
            }
            return None;
        },
    };
    proof {
        assert forall|v: RecordV| doc_of(s@, v) implies p9 == off_hash(v) by {
            lemma_record_layout(s@, v);
        }
    }
    let (hash_f, q9) = match scan_opt_str(s, p9) {
        Some(x) => x,
        None => {
            proof {
                assert forall|v: RecordV| !doc_of(s@, v) by {
                    if doc_of(s@, v) {
                        lemma_record_layout(s@, v);
                        assert(opt_str_at(s@, p9 as int, v.hash));
                    }
                }
            }
            return None;
        },
    };
    proof {
        assert forall|v: RecordV|
            doc_of(s@, v) implies opt_view(hash_f) == v.hash && q9 == off_hash(v) + opt_str_json(
            v.hash,
        ).len() by {
            lemma_record_layout(s@, v);
            assert(opt_str_at(s@, p9 as int, v.hash));
        }
    }
    let p10 = match parse_lit(s, q9, "}") {
        Some(p) => p,
        None => {
            proof {
                assert forall|v: RecordV| !doc_of(s@, v) by {
                    if doc_of(s@, v) {
                        lemma_record_layout(s@, v);
                    }
                }
            }
            return None;
        },
    };
    if p10 != n {
        proof {
            assert forall|v: RecordV| !doc_of(s@, v) by {
                if doc_of(s@, v) {
                    lemma_record_layout(s@, v);
                }
            }
        }
        return None;
    }
    let rec = RunRecord {
        stack: stack_f,
        timestamp: ts_f,
        duration_seconds: dur,
        readiness: ready,
        confidence: conf64 as u32,
        risk: risk_f,
        exit_code: exit_c,
        services: svcs,
        hash: hash_f,
    };
    proof {
        assert forall|v: RecordV| doc_of(s@, v) implies rec@ =~~= v by {
            lemma_record_layout(s@, v);
        }
    }
    Some(rec)
}

// ------------------------------------------------------------------
// Well-formedness checks
// ------------------------------------------------------------------

/// Check that a string can stand unescaped in a document.
pub fn str_json_safe(t: &str) -> (r: bool)
    ensures
        r == json_safe(t@),
{
    let n = t.unicode_len();
    let mut i: usize = 0;
    while i < n
        invariant
            0 <= i <= n,
            n == t@.len(),
            forall|j: int| 0 <= j < i ==> json_safe_char(#[trigger] t@[j]),
        decreases n - i,
    {
        let c = t.get_char(i);
        let ok = c != '"' && c != '\\' && c >= ' ';
        if !ok {
            return false;
        }
        i = i + 1;
    }
    true
}

/// Check that every string of a record can stand unescaped.
pub fn record_wf_exec(rec: &RunRecord) -> (b: bool)
    ensures
        b == record_wf(rec@),
{
    if !str_json_safe(rec.stack.as_str()) {
        return false;
    }
    if !str_json_safe(rec.timestamp.as_str()) {
        return false;
    }
    if !str_json_safe(rec.risk.as_str()) {
        return false;
    }
    match &rec.hash {
        Some(h) => {
            if !str_json_safe(h.as_str()) {
                return false;
            }
        },
        None => {},
    }
    let n = rec.services.len();
    let mut i: usize = 0;
    while i < n
        invariant
            0 <= i <= n,
            n == rec.services@.len(),
            forall|j: int| 0 <= j < i ==> json_safe((#[trigger] svc_views(rec.services@)[j]).0),
        decreases n - i,
    {
        if !str_json_safe(rec.services[i].0.as_str()) {
            proof {
                assert(rec@.services[i as int].0 == rec.services@[i as int].0@);
                assert(!json_safe(rec@.services[i as int].0));
                assert(!record_wf(rec@));
            }
            return false;
        }
        i = i + 1;
    }
    true
}

// ------------------------------------------------------------------
// Reading a document back
// ------------------------------------------------------------------

/// Read a record back from its canonical JSON document.
///
/// The contract makes the pair of functions exact inverses: a `Some`
/// result is well-formed and renders back to the input, and rendering
/// any well-formed record and reading the text again recovers exactly
/// that record.
pub fn record_from_json(s: &str) -> (r: Option<RunRecord>)
    ensures
        r matches Some(rec) ==> record_wf(rec@) && s@ == record_json(rec@),
        forall|v: RecordV| doc_of(s@, v) ==> (r is Some && r->Some_0@ == v),
{
    let cand = match scan_record(s) {
        Some(c) => c,
        None => {
            return None;
        },
    };
    if !record_wf_exec(&cand) {
        return None;
    }
    let rendered = record_to_json(&cand);
    let owned = s.to_owned();
    if owned == rendered {
        Some(cand)
    } else {
        proof {
            assert forall|v: RecordV| !doc_of(s@, v) by {
                if doc_of(s@, v) {
                    assert(cand@ == v);
                }
            }
        }
        None
    }
}
} // verus!

