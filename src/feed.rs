//! Decoding of the relay feed: a text whose first two lines are headers and
//! whose other lines are comma-separated records, the last field of each being
//! a base64-encoded tunnel configuration. A line holding only `*` is a section
//! break. The fingerprint of a feed is the MD5 digest of its raw bytes.

use base64::Engine;
use vstd::prelude::*;
use vstd::utf8::{decode_utf8, valid_utf8};

verus! {

/// The lower-case hexadecimal MD5 digest of some bytes.
pub uninterp spec fn md5_hex(data: Seq<u8>) -> Seq<char>;

/// What base64's standard engine decodes from some text; `None` where it
/// rejects the text.
pub uninterp spec fn base64_standard(text: Seq<u8>) -> Option<Seq<u8>>;

#[verifier::external_type_specification]
#[verifier::external_body]
pub struct ExDecodeError(base64::DecodeError);

#[verifier::external_type_specification]
#[verifier::external_body]
pub struct ExFromUtf8Error(std::string::FromUtf8Error);

/// Relies on `md5::compute` and the lower-hex form of its `Digest`, which
/// writes each of the 16 bytes as two digits.
#[verifier::external_body]
fn md5_lower_hex(data: &[u8]) -> (r: String)
    ensures
        r@ == md5_hex(data@),
        r@.len() == 32,
{
    format!("{:x}", md5::compute(data))
}

/// Relies on `Engine::decode` of base64's `general_purpose::STANDARD` engine.
#[verifier::external_body]
fn decode_base64(text: &[u8]) -> (r: Result<Vec<u8>, base64::DecodeError>)
    ensures
        match r {
            Ok(v) => base64_standard(text@) == Some(v@),
            Err(_) => base64_standard(text@) is None,
        },
{
    base64::engine::general_purpose::STANDARD.decode(text)
}

/// Relies on `String::from_utf8`: it succeeds exactly on valid UTF-8 and then
/// holds the decoded characters.
#[verifier::external_body]
fn utf8_string(bytes: Vec<u8>) -> (r: Result<String, std::string::FromUtf8Error>)
    ensures
        match r {
            Ok(s) => valid_utf8(bytes@) && s@ == decode_utf8(bytes@),
            Err(_) => !valid_utf8(bytes@),
        },
{
    String::from_utf8(bytes)
}

/// The lines of `s` from a line that starts at `start`, scanning at `i`.
/// Lines end at `\n`, and a `\r` just before it is dropped; a last line
/// without `\n` is kept as it is, and the end of the text starts no line.
pub open spec fn lines_scan(s: Seq<u8>, start: int, i: int) -> Seq<Seq<u8>>
    decreases s.len() - i,
{
    if i >= s.len() {
        if start < s.len() {
            seq![s.subrange(start, s.len() as int)]
        } else {
            seq![]
        }
    } else if s[i] == 10u8 {
        seq![chomp(s.subrange(start, i))] + lines_scan(s, i + 1, i + 1)
    } else {
        lines_scan(s, start, i + 1)
    }
}

/// A line without the carriage return that ended it.
pub open spec fn chomp(line: Seq<u8>) -> Seq<u8> {
    if line.len() > 0 && line.last() == 13u8 {
        line.drop_last()
    } else {
        line
    }
}

/// The lines of a text.
pub open spec fn lines(s: Seq<u8>) -> Seq<Seq<u8>> {
    lines_scan(s, 0, 0)
}

/// A section break: the line `*`.
pub open spec fn is_break(line: Seq<u8>) -> bool {
    line == seq![42u8]
}

/// The lines that are not section breaks, in order.
pub open spec fn drop_breaks(ls: Seq<Seq<u8>>) -> Seq<Seq<u8>>
    decreases ls.len(),
{
    if ls.len() == 0 {
        ls
    } else if is_break(ls.last()) {
        drop_breaks(ls.drop_last())
    } else {
        drop_breaks(ls.drop_last()).push(ls.last())
    }
}

/// The records of a feed's lines: all but the two header lines and the breaks.
pub open spec fn records_of(ls: Seq<Seq<u8>>) -> Seq<Seq<u8>> {
    if ls.len() >= 2 {
        drop_breaks(ls.subrange(2, ls.len() as int))
    } else {
        seq![]
    }
}

/// Where the last comma-separated field of a record starts.
pub open spec fn field_start(line: Seq<u8>) -> int
    decreases line.len(),
{
    if line.len() == 0 {
        0
    } else if line.last() == 44u8 {
        line.len() as int
    } else {
        field_start(line.drop_last())
    }
}

/// The last field of a record: the encoded configuration.
pub open spec fn config_field(line: Seq<u8>) -> Seq<u8> {
    line.subrange(field_start(line), line.len() as int)
}

/// The configuration text of a record, where its last field decodes as base64
/// to valid UTF-8.
pub open spec fn record_config(line: Seq<u8>) -> Option<Seq<char>> {
    match base64_standard(config_field(line)) {
        Some(bytes) => if valid_utf8(bytes) {
            Some(decode_utf8(bytes))
        } else {
            None
        },
        None => None,
    }
}

/// The configurations of a sequence of records; `None` if any record fails.
pub open spec fn decode_records(recs: Seq<Seq<u8>>) -> Option<Seq<Seq<char>>>
    decreases recs.len(),
{
    if recs.len() == 0 {
        Some(seq![])
    } else {
        match (decode_records(recs.drop_last()), record_config(recs.last())) {
            (Some(done), Some(c)) => Some(done.push(c)),
            _ => None,
        }
    }
}

/// The configurations that a feed's raw bytes decode to; `None` if any record fails.
pub open spec fn feed_configs(raw: Seq<u8>) -> Option<Seq<Seq<char>>> {
    decode_records(records_of(lines(raw)))
}

/// The value of a sequence of byte vectors.
pub open spec fn bytes_view(v: Seq<Vec<u8>>) -> Seq<Seq<u8>> {
    v.map_values(|b: Vec<u8>| b@)
}

/// The value of a sequence of strings.
pub open spec fn texts_view(v: Seq<String>) -> Seq<Seq<char>> {
    v.map_values(|t: String| t@)
}

fn copy_range(s: &[u8], lo: usize, hi: usize) -> (r: Vec<u8>)
    requires
        lo <= hi <= s@.len(),
    ensures
        r@ == s@.subrange(lo as int, hi as int),
{
    let mut r: Vec<u8> = Vec::new();
    let mut k: usize = lo;
    while k < hi
        invariant
            lo <= k <= hi <= s@.len(),
            r@ == s@.subrange(lo as int, k as int),
        decreases hi - k,
    {
        r.push(s[k]);
        proof {
            assert(r@ =~= s@.subrange(lo as int, k + 1));
        }
        k = k + 1;
    }
    r
}

/// Splits a text into its lines.
pub fn split_lines(raw: &[u8]) -> (r: Vec<Vec<u8>>)
    ensures
        bytes_view(r@) == lines(raw@),
{
    let mut out: Vec<Vec<u8>> = Vec::new();
    let mut start: usize = 0;
    let mut i: usize = 0;
    while i < raw.len()
        invariant
            start <= i <= raw@.len(),
            bytes_view(out@) + lines_scan(raw@, start as int, i as int) == lines(raw@),
        decreases raw@.len() - i,
    {
        if raw[i] == 10u8 {
            let mut line = copy_range(raw, start, i);
            if line.len() > 0 && line[line.len() - 1] == 13u8 {
                line.pop();
            }
            let ghost before = out@;
            out.push(line);
            proof {
                assert(line@ == chomp(raw@.subrange(start as int, i as int)));
                assert(bytes_view(out@) =~= bytes_view(before).push(line@));
                assert(bytes_view(out@) + lines_scan(raw@, i + 1, i + 1) =~= bytes_view(before)
                    + lines_scan(raw@, start as int, i as int));
            }
            start = i + 1;
        }
        i = i + 1;
    }
    if start < raw.len() {
        let line = copy_range(raw, start, raw.len());
        let ghost before = out@;
        out.push(line);
        proof {
            assert(bytes_view(out@) =~= bytes_view(before) + lines_scan(raw@, start as int, i as int));
        }
    } else {
        proof {
            assert(bytes_view(out@) =~= bytes_view(out@) + lines_scan(raw@, start as int, i as int));
        }
    }
    out
}

/// Why a record could not be decoded.
#[derive(Clone, Copy, Debug, PartialEq, Eq, Structural)]
pub enum FormatCause {
    /// The last field is not valid base64.
    Base64,
    /// The decoded configuration is not valid UTF-8.
    Utf8,
}

/// Why a feed could not be had.
#[derive(Clone, Debug)]
pub enum FeedError {
    /// The network fetch failed; the text says how.
    TransportError(String),
    /// A record is malformed; `record` counts the records from zero.
    FeedFormatError { record: usize, cause: FormatCause },
}

/// The cause that a record fails with, where it fails.
pub open spec fn fault_of(line: Seq<u8>) -> FormatCause {
    if base64_standard(config_field(line)) is None {
        FormatCause::Base64
    } else {
        FormatCause::Utf8
    }
}

/// The candidates of one fetch of the feed.
#[derive(Clone, Debug)]
pub struct FeedSnapshot {
    /// The decoded configuration of each record, in the feed's order.
    pub configs: Vec<String>,
    /// The MD5 digest of the raw feed, in lower-case hexadecimal.
    pub fingerprint: String,
}

/// Where the last comma-separated field of a line starts.
pub fn last_field_start(line: &[u8]) -> (r: usize)
    ensures
        r as int == field_start(line@),
        r <= line@.len(),
{
    let mut j: usize = line.len();
    proof {
        assert(line@.subrange(0, j as int) =~= line@);
    }
    while j > 0 && line[j - 1] != 44u8
        invariant
            j <= line@.len(),
            field_start(line@) == field_start(line@.subrange(0, j as int)),
        decreases j,
    {
        proof {
            assert(line@.subrange(0, j as int).drop_last() =~= line@.subrange(0, j - 1));
        }
        j = j - 1;
    }
    j
}

/// Decodes the configuration of one record.
pub fn decode_record(line: &[u8]) -> (r: Result<String, FormatCause>)
    ensures
        match r {
            Ok(text) => record_config(line@) == Some(text@),
            Err(cause) => record_config(line@) is None && cause == fault_of(line@),
        },
{
    let start = last_field_start(line);
    let field = copy_range(line, start, line.len());
    match decode_base64(field.as_slice()) {
        Ok(bytes) => match utf8_string(bytes) {
            Ok(text) => Ok(text),
            Err(_) => Err(FormatCause::Utf8),
        },
        Err(_) => Err(FormatCause::Base64),
    }
}

proof fn lemma_drop_breaks_append(a: Seq<Seq<u8>>, b: Seq<Seq<u8>>)
    ensures
        drop_breaks(a + b) == drop_breaks(a) + drop_breaks(b),
    decreases b.len(),
{
    if b.len() == 0 {
        assert(a + b =~= a);
        assert(drop_breaks(a) + drop_breaks(b) =~= drop_breaks(a));
    } else {
        lemma_drop_breaks_append(a, b.drop_last());
        assert((a + b).drop_last() =~= a + b.drop_last());
        assert((a + b).last() == b.last());
        if !is_break(b.last()) {
            assert(drop_breaks(a) + drop_breaks(b) =~= (drop_breaks(a) + drop_breaks(
                b.drop_last(),
            )).push(b.last()));
        }
    }
}

proof fn lemma_decode_records_append(a: Seq<Seq<u8>>, b: Seq<Seq<u8>>)
    ensures
        decode_records(a) is None ==> decode_records(a + b) is None,
        decode_records(a) is Some ==> forall|j: int|
            0 <= j < a.len() ==> #[trigger] record_config(a[j]) is Some,
    decreases b.len(), a.len(),
{
    if b.len() > 0 {
        lemma_decode_records_append(a, b.drop_last());
        assert((a + b).drop_last() =~= a + b.drop_last());
    } else {
        assert(a + b =~= a);
        if a.len() > 0 {
            lemma_decode_records_append(a.drop_last(), b);
            if decode_records(a) is Some {
                assert forall|j: int| 0 <= j < a.len() implies #[trigger] record_config(
                    a[j],
                ) is Some by {
                    if j < a.len() - 1 {
                        assert(a.drop_last()[j] == a[j]);
                    }
                }
            }
        }
    }
}

/// Decoding is a function of the raw bytes: equal feeds give equal
/// configurations and equal fingerprints.
pub proof fn lemma_decode_deterministic(a: Seq<u8>, b: Seq<u8>)
    requires
        a == b,
    ensures
        feed_configs(a) == feed_configs(b),
        md5_hex(a) == md5_hex(b),
{
}

proof fn lemma_lines_scan_shift(x: Seq<u8>, z: Seq<u8>, start: int, i: int)
    requires
        0 <= start <= i <= z.len(),
    ensures
        lines_scan(x + z, x.len() + start, x.len() + i) == lines_scan(z, start, i),
    decreases z.len() - i,
{
    let xz = x + z;
    let n = x.len() as int;
    if i < z.len() {
        assert(xz[n + i] == z[i]);
        if z[i] == 10u8 {
            lemma_lines_scan_shift(x, z, i + 1, i + 1);
            assert(xz.subrange(n + start, n + i) =~= z.subrange(start, i));
        } else {
            lemma_lines_scan_shift(x, z, start, i + 1);
        }
    } else if start < z.len() {
        assert(xz.subrange(n + start, xz.len() as int) =~= z.subrange(start, z.len() as int));
    }
}

proof fn lemma_lines_scan_concat(x: Seq<u8>, z: Seq<u8>, start: int, i: int)
    requires
        x.len() > 0,
        x.last() == 10u8,
        0 <= start <= i <= x.len(),
        i == x.len() ==> start == i,
    ensures
        lines_scan(x + z, start, i) == lines_scan(x, start, i) + lines(z),
    decreases x.len() - i,
{
    let xz = x + z;
    if i == x.len() {
        lemma_lines_scan_shift(x, z, 0, 0);
        assert(lines_scan(x, start, i) + lines(z) =~= lines(z));
    } else {
        assert(xz[i] == x[i]);
        if x[i] == 10u8 {
            lemma_lines_scan_concat(x, z, i + 1, i + 1);
            assert(xz.subrange(start, i) =~= x.subrange(start, i));
            assert(lines_scan(x, start, i) + lines(z) =~= seq![chomp(x.subrange(start, i))] + (
            lines_scan(x, i + 1, i + 1) + lines(z)));
        } else {
            lemma_lines_scan_concat(x, z, start, i + 1);
        }
    }
}

/// The lines of a text that ends a line, followed by another text.
pub proof fn lemma_lines_concat(x: Seq<u8>, z: Seq<u8>)
    requires
        x.len() > 0,
        x.last() == 10u8,
    ensures
        lines(x + z) == lines(x) + lines(z),
{
    lemma_lines_scan_concat(x, z, 0, 0);
}

/// A section-break line inserted between any two lines after the headers
/// changes nothing that the feed decodes to.
pub proof fn lemma_break_line_ignored(x: Seq<u8>, y: Seq<u8>)
    requires
        lines(x).len() >= 2,
        x.len() > 0,
        x.last() == 10u8,
    ensures
        feed_configs(x + seq![42u8, 10u8] + y) == feed_configs(x + y),
        records_of(lines(x + seq![42u8, 10u8] + y)) == records_of(lines(x + y)),
{
    let star = seq![42u8, 10u8];
    lemma_lines_concat(x, star + y);
    lemma_lines_concat(star, y);
    lemma_lines_concat(x, y);
    assert(x + star + y =~= x + (star + y));
    reveal_with_fuel(lines_scan, 3);
    assert(lines(star) =~= seq![seq![42u8]]) by {
        assert(star.subrange(0, 1) =~= seq![42u8]);
        assert(chomp(seq![42u8]) =~= seq![42u8]);
    }
    let lx = lines(x);
    let ly = lines(y);
    let hx = lx.subrange(2, lx.len() as int);
    assert((lx + (seq![seq![42u8]] + ly)).subrange(2, (lx.len() + 1 + ly.len()) as int) =~= hx + (seq![
        seq![42u8],
    ] + ly));
    assert((lx + ly).subrange(2, (lx.len() + ly.len()) as int) =~= hx + ly);
    lemma_drop_breaks_append(hx, seq![seq![42u8]] + ly);
    lemma_drop_breaks_append(seq![seq![42u8]], ly);
    lemma_drop_breaks_append(hx, ly);
    let sl = seq![seq![42u8]];
    assert(sl.drop_last() =~= Seq::<Seq<u8>>::empty());
    assert(sl.last() == seq![42u8]);
    assert(is_break(sl.last()));
    assert(drop_breaks(Seq::<Seq<u8>>::empty()) =~= Seq::<Seq<u8>>::empty());
    assert(drop_breaks(sl) =~= Seq::<Seq<u8>>::empty());
    assert(drop_breaks(seq![seq![42u8]]) + ly =~= ly);
    assert(drop_breaks(seq![seq![42u8]]) + drop_breaks(ly) =~= drop_breaks(ly));
}

/// A record whose last field is not valid base64 makes the whole feed fail.
pub proof fn lemma_malformed_base64_rejects(raw: Seq<u8>, k: int)
    requires
        0 <= k < records_of(lines(raw)).len(),
        base64_standard(config_field(records_of(lines(raw))[k])) is None,
    ensures
        feed_configs(raw) is None,
{
    let recs = records_of(lines(raw));
    let head = recs.take(k + 1);
    assert(recs =~= head + recs.skip(k + 1));
    assert(head[k] == recs[k]);
    lemma_decode_records_append(head, seq![]);
    lemma_decode_records_append(head, recs.skip(k + 1));
}

/// Decodes a feed: the configuration of each record and the fingerprint of
/// the whole raw text. Any malformed record fails the whole feed, naming the
/// first such record.
pub fn decode_feed(raw: &[u8]) -> (r: Result<FeedSnapshot, FeedError>)
    ensures
        match r {
            Ok(snap) => feed_configs(raw@) == Some(texts_view(snap.configs@))
                && snap.fingerprint@ == md5_hex(raw@) && snap.fingerprint@.len() == 32,
            Err(FeedError::FeedFormatError { record, cause }) => {
                let recs = records_of(lines(raw@));
                &&& feed_configs(raw@) is None
                &&& record < recs.len()
                &&& record_config(recs[record as int]) is None
                &&& cause == fault_of(recs[record as int])
                &&& forall|j: int| 0 <= j < record ==> #[trigger] record_config(recs[j]) is Some
            },
            Err(FeedError::TransportError(_)) => false,
        },
{
    let fingerprint = md5_lower_hex(raw);
    let all = split_lines(raw);
    let ghost ls = bytes_view(all@);
    let mut configs: Vec<String> = Vec::new();
    if all.len() < 2 {
        proof {
            assert(texts_view(configs@) =~= seq![]);
        }
        return Ok(FeedSnapshot { configs, fingerprint });
    }
    let mut i: usize = 2;
    while i < all.len()
        invariant
            2 <= i <= all@.len(),
            ls == bytes_view(all@),
            ls == lines(raw@),
            decode_records(drop_breaks(ls.subrange(2, i as int))) == Some(texts_view(configs@)),
            configs@.len() == drop_breaks(ls.subrange(2, i as int)).len(),
        decreases all@.len() - i,
    {
        let ghost done = drop_breaks(ls.subrange(2, i as int));
        proof {
            assert(ls.subrange(2, i + 1) =~= ls.subrange(2, i as int).push(ls[i as int]));
            assert(ls.subrange(2, i + 1).drop_last() =~= ls.subrange(2, i as int));
            assert(ls[i as int] == all@[i as int]@);
            assert(done.push(ls[i as int]).drop_last() =~= done);
        }
        let line = all[i].as_slice();
        let star = line.len() == 1 && line[0] == 42u8;
        proof {
            if star {
                assert(line@ =~= seq![42u8]);
            }
        }
        if !star {
            match decode_record(line) {
                Ok(text) => {
                    let ghost before = configs@;
                    configs.push(text);
                    proof {
                        assert(texts_view(configs@) =~= texts_view(before).push(text@));
                    }
                },
                Err(cause) => {
                    proof {
                        let upto = done.push(ls[i as int]);
                        let rest = ls.subrange(i + 1, ls.len() as int);
                        assert(ls.subrange(2, ls.len() as int) =~= ls.subrange(2, i + 1) + rest);
                        lemma_drop_breaks_append(ls.subrange(2, i + 1), rest);
                        let recs = records_of(ls);
                        assert(recs == upto + drop_breaks(rest));
                        lemma_decode_records_append(upto, drop_breaks(rest));
                        lemma_decode_records_append(done, seq![]);
                        assert(upto.drop_last() =~= done);
                        assert(recs[configs@.len() as int] == upto[configs@.len() as int]);
                        assert forall|j: int| 0 <= j < configs@.len() implies #[trigger] record_config(
                            recs[j],
                        ) is Some by {
                            assert(recs[j] == done[j]);
                        }
                    }
                    return Err(FeedError::FeedFormatError { record: configs.len(), cause });
                },
            }
        }
        i = i + 1;
    }
    proof {
        assert(ls.subrange(2, i as int) =~= ls.subrange(2, ls.len() as int));
    }
    Ok(FeedSnapshot { configs, fingerprint })
}

} // verus!
