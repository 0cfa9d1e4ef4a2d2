//! Encoding of one metric record into line-protocol lines.
use vstd::prelude::*;
use vstd::string::*;
use crate::schema_index::SchemaIndex;

verus! {

/// Identity and tags of a metric record.
pub struct Meta {
    pub name: String,
    pub uuid: String,
    /// Tag pairs in order; each holds the key, then the value.
    pub tags: Vec<Vec<String>>,
}

/// One metric record: a time series of samples for one metric name.
///
/// `value[i]` is the default decimal text of the i-th sample's number, and
/// `time[i]` its timestamp in milliseconds.
pub struct Metric {
    pub meta: Meta,
    pub time: Vec<u128>,
    pub value: Vec<String>,
}

/// Why a record whose metric name is mapped could not be encoded.
#[derive(Clone, Copy, Debug, PartialEq, Eq, Structural)]
pub enum EncodeError {
    /// `time` and `value` differ in length.
    LengthMismatch,
    /// A tag holds fewer than two strings.
    MalformedTag,
}

/// `v` with every space preceded by a backslash.
pub open spec fn escape_spaces(v: Seq<char>) -> Seq<char>
    decreases v.len(),
{
    if v.len() == 0 {
        Seq::empty()
    } else if v.last() == ' ' {
        escape_spaces(v.drop_last()) + seq!['\\', ' ']
    } else {
        escape_spaces(v.drop_last()).push(v.last())
    }
}

/// `key=value` for one tag, with the value's spaces escaped.
pub open spec fn pair_text(tag: Seq<String>) -> Seq<char> {
    tag[0]@ + seq!['='] + escape_spaces(tag[1]@)
}

/// The tag pairs' texts joined by commas.
pub open spec fn tags_text(tags: Seq<Vec<String>>) -> Seq<char>
    decreases tags.len(),
{
    if tags.len() == 0 {
        Seq::empty()
    } else if tags.len() == 1 {
        pair_text(tags[0]@)
    } else {
        tags_text(tags.drop_last()) + seq![','] + pair_text(tags.last()@)
    }
}

/// Every tag holds a key and a value.
pub open spec fn tags_well_formed(tags: Seq<Vec<String>>) -> bool {
    forall|i: int| 0 <= i < tags.len() ==> #[trigger] tags[i]@.len() >= 2
}

pub open spec fn digit_char(d: nat) -> char {
    ((d + 48) as u8) as char
}

/// Decimal digits of `n`, without leading zeros.
pub open spec fn decimal(n: nat) -> Seq<char>
    decreases n,
{
    if n < 10 {
        seq![digit_char(n)]
    } else {
        decimal(n / 10).push(digit_char(n % 10))
    }
}

/// Measurement, then the tag fragment after a comma where there are tags.
pub open spec fn series_key(measurement: Seq<char>, tags: Seq<Vec<String>>) -> Seq<char> {
    if tags.len() == 0 {
        measurement
    } else {
        measurement + seq![','] + tags_text(tags)
    }
}

/// `{series key} {name}={value} {time in nanoseconds}`.
pub open spec fn line_text(key: Seq<char>, name: Seq<char>, value: Seq<char>, time_ms: nat) -> Seq<char> {
    key + seq![' '] + name + seq!['='] + value + seq![' '] + decimal(time_ms * 1_000_000)
}

/// The lines that a record encodes to under the name-to-measurement map
/// `index`, or the reason it cannot be encoded.
pub open spec fn lp_lines(m: Metric, index: Map<Seq<char>, Seq<char>>) -> Result<Seq<Seq<char>>, EncodeError> {
    if !index.contains_key(m.meta.name@) {
        Ok(Seq::empty())
    } else if m.time@.len() != m.value@.len() {
        Err(EncodeError::LengthMismatch)
    } else if !tags_well_formed(m.meta.tags@) {
        Err(EncodeError::MalformedTag)
    } else {
        Ok(Seq::new(m.time@.len(), |i: int| line_text(
            series_key(index[m.meta.name@], m.meta.tags@),
            m.meta.name@,
            m.value@[i]@,
            m.time@[i] as nat,
        )))
    }
}

pub open spec fn strings_view(v: Seq<String>) -> Seq<Seq<char>> {
    v.map_values(|s: String| s@)
}

/// A record whose name is mapped, whose arrays agree in length and whose tags
/// are pairs gives one line per sample: each starts
/// with the resolved measurement and the tag fragment, and ends with the
/// sample's time in nanoseconds.
pub proof fn lemma_one_line_per_sample(m: Metric, index: Map<Seq<char>, Seq<char>>)
    requires
        index.contains_key(m.meta.name@),
        m.time@.len() == m.value@.len(),
        tags_well_formed(m.meta.tags@),
    ensures
        lp_lines(m, index) is Ok,
        lp_lines(m, index)->Ok_0.len() == m.time@.len(),
        forall|i: int| 0 <= i < m.time@.len() ==> {
            let line = #[trigger] lp_lines(m, index)->Ok_0[i];
            let key = series_key(index[m.meta.name@], m.meta.tags@);
            let tail = decimal(m.time@[i] as nat * 1_000_000);
            &&& line.take(index[m.meta.name@].len() as int) == index[m.meta.name@]
            &&& line.take(key.len() as int) == key
            &&& line.skip(line.len() - tail.len()) == tail
            &&& line == key + seq![' '] + m.meta.name@ + seq!['='] + m.value@[i]@ + seq![' '] + tail
        },
{
    assert forall|i: int| 0 <= i < m.time@.len() implies {
        let line = #[trigger] lp_lines(m, index)->Ok_0[i];
        let key = series_key(index[m.meta.name@], m.meta.tags@);
        let tail = decimal(m.time@[i] as nat * 1_000_000);
        &&& line.take(index[m.meta.name@].len() as int) == index[m.meta.name@]
        &&& line.take(key.len() as int) == key
        &&& line.skip(line.len() - tail.len()) == tail
        &&& line == key + seq![' '] + m.meta.name@ + seq!['='] + m.value@[i]@ + seq![' '] + tail
    } by {
        let line = lp_lines(m, index)->Ok_0[i];
        let meas = index[m.meta.name@];
        let key = series_key(meas, m.meta.tags@);
        let tail = decimal(m.time@[i] as nat * 1_000_000);
        let head = key + seq![' '] + m.meta.name@ + seq!['='] + m.value@[i]@ + seq![' '];
        assert(line == head + tail);
        assert(line.take(key.len() as int) =~= key);
        assert(line.skip(line.len() - tail.len()) =~= tail);
        assert(line.take(meas.len() as int) =~= meas);
    }
}

/// A record whose name is not mapped gives no line and no error.
pub proof fn lemma_unmapped_gives_nothing(m: Metric, index: Map<Seq<char>, Seq<char>>)
    requires
        !index.contains_key(m.meta.name@),
    ensures
        lp_lines(m, index) == Ok::<Seq<Seq<char>>, EncodeError>(Seq::empty()),
{
}

/// Encoding depends on the record and the index alone: encoding the same
/// record twice under the same index gives the same outcome.
pub proof fn lemma_encoding_is_pure(m1: Metric, m2: Metric, i1: SchemaIndex, i2: SchemaIndex)
    requires
        m1 == m2,
        i1@ == i2@,
    ensures
        lp_lines(m1, i1@) == lp_lines(m2, i2@),
{
}

/// Relies on String::push: appends one character.
#[verifier::external_body]
fn push_char(s: &mut String, c: char)
    ensures
        final(s)@ == old(s)@.push(c),
{
    s.push(c)
}

fn push_escaped(out: &mut String, v: &String)
    ensures
        final(out)@ == old(out)@ + escape_spaces(v@),
{
    let n = v.as_str().unicode_len();
    let mut i: usize = 0;
    while i < n
        invariant
            n == v@.len(),
            i <= n,
            out@ == old(out)@ + escape_spaces(v@.take(i as int)),
        decreases n - i,
    {
        let c = v.as_str().get_char(i);
        assert(v@.take(i + 1).drop_last() =~= v@.take(i as int));
        if c == ' ' {
            push_char(out, '\\');
            push_char(out, ' ');
        } else {
            push_char(out, c);
        }
        assert(out@ =~= old(out)@ + escape_spaces(v@.take(i + 1)));
        i = i + 1;
    }
    assert(v@.take(n as int) =~= v@);
}

fn push_decimal(out: &mut String, n: u128)
    ensures
        final(out)@ == old(out)@ + decimal(n as nat),
    decreases n,
{
    if n >= 10 {
        push_decimal(out, n / 10);
    }
    let d: u8 = (n % 10) as u8;
    push_char(out, (d + 48) as char);
    assert(out@ =~= old(out)@ + decimal(n as nat));
}

proof fn lemma_decimal_times_ten(n: nat)
    requires
        n > 0,
    ensures
        decimal(10 * n) == decimal(n).push('0'),
{
    assert((10 * n) / 10 == n && (10 * n) % 10 == 0) by (nonlinear_arith);
    assert(digit_char(0) == '0');
}

/// Six zeros after the digits of a positive number multiply it by a million.
proof fn lemma_decimal_times_million(n: nat)
    requires
        n > 0,
    ensures
        decimal(n * 1_000_000) == decimal(n) + seq!['0', '0', '0', '0', '0', '0'],
{
    lemma_decimal_times_ten(n);
    lemma_decimal_times_ten(10 * n);
    lemma_decimal_times_ten(100 * n);
    lemma_decimal_times_ten(1000 * n);
    lemma_decimal_times_ten(10000 * n);
    lemma_decimal_times_ten(100000 * n);
    assert(10 * (10 * n) == 100 * n && 10 * (100 * n) == 1000 * n && 10 * (1000 * n) == 10000 * n
        && 10 * (10000 * n) == 100000 * n && 10 * (100000 * n) == n * 1_000_000);
    assert(decimal(n * 1_000_000) =~= decimal(n) + seq!['0', '0', '0', '0', '0', '0']);
}

/// Writes a time in milliseconds as nanoseconds: its digits, then six zeros
/// unless it is zero.
fn push_timestamp_ns(out: &mut String, time_ms: u128)
    ensures
        final(out)@ == old(out)@ + decimal(time_ms as nat * 1_000_000),
{
    push_decimal(out, time_ms);
    if time_ms > 0 {
        let mut k: usize = 0;
        while k < 6
            invariant
                k <= 6,
                out@ == old(out)@ + decimal(time_ms as nat) + Seq::new(k as nat, |j: int| '0'),
            decreases 6 - k,
        {
            push_char(out, '0');
            assert(out@ =~= old(out)@ + decimal(time_ms as nat) + Seq::new((k + 1) as nat, |j: int| '0'));
            k = k + 1;
        }
        proof {
            lemma_decimal_times_million(time_ms as nat);
            assert(Seq::new(6, |j: int| '0') =~= seq!['0', '0', '0', '0', '0', '0']);
        }
    } else {
        assert(time_ms as nat * 1_000_000 == 0);
    }
}

/// The tag fragment: `key=value` pairs in order, joined by commas, spaces in
/// values escaped; empty where there are no tags.
pub fn tag_fragment(tags: &Vec<Vec<String>>) -> (r: String)
    requires
        tags_well_formed(tags@),
    ensures
        r@ == tags_text(tags@),
{
    let mut out = String::new();
    let mut i: usize = 0;
    while i < tags.len()
        invariant
            i <= tags@.len(),
            tags_well_formed(tags@),
            out@ == tags_text(tags@.take(i as int)),
        decreases tags@.len() - i,
    {
        assert(tags@[i as int]@.len() >= 2);
        if i > 0 {
            push_char(&mut out, ',');
        }
        let tag = &tags[i];
        out.append(tag[0].as_str());
        push_char(&mut out, '=');
        push_escaped(&mut out, &tag[1]);
        assert(tags@.take(i + 1).drop_last() =~= tags@.take(i as int));
        assert(out@ =~= tags_text(tags@.take(i + 1)));
        i = i + 1;
    }
    assert(tags@.take(i as int) =~= tags@);
    out
}

/// Encodes one record: one line per sample where its name is in `schema`,
/// none where it is not.
pub fn format_to_lp(metric: &Metric, schema: &SchemaIndex) -> (r: Result<Vec<String>, EncodeError>)
    ensures
        match r {
            Ok(v) => lp_lines(*metric, schema@) == Ok::<Seq<Seq<char>>, EncodeError>(strings_view(v@)),
            Err(e) => lp_lines(*metric, schema@) == Err::<Seq<Seq<char>>, EncodeError>(e),
        },
{
    let measurement = match schema.resolve(&metric.meta.name) {
        Some(m) => m,
        None => {
            let empty: Vec<String> = Vec::new();
            assert(strings_view(empty@) =~= Seq::<Seq<char>>::empty());
            return Ok(empty);
        },
    };
    if metric.time.len() != metric.value.len() {
        return Err(EncodeError::LengthMismatch);
    }
    let tags = &metric.meta.tags;
    let mut k: usize = 0;
    while k < tags.len()
        invariant
            k <= tags@.len(),
            tags@ == metric.meta.tags@,
            schema@.contains_key(metric.meta.name@),
            metric.time@.len() == metric.value@.len(),
            forall|j: int| 0 <= j < k ==> #[trigger] tags@[j]@.len() >= 2,
        decreases tags@.len() - k,
    {
        if tags[k].len() < 2 {
            assert(!tags_well_formed(metric.meta.tags@)) by {
                assert(metric.meta.tags@[k as int]@.len() < 2);
            }
            return Err(EncodeError::MalformedTag);
        }
        k = k + 1;
    }
    let n = metric.time.len();
    let frag = tag_fragment(tags);
    let mut key = measurement.clone();
    if tags.len() > 0 {
        push_char(&mut key, ',');
        key.append(frag.as_str());
    }
    let ghost want = Seq::new(n as nat, |i: int| line_text(
        series_key(schema@[metric.meta.name@], tags@),
        metric.meta.name@,
        metric.value@[i]@,
        metric.time@[i] as nat,
    ));
    let mut lines: Vec<String> = Vec::new();
    let mut i: usize = 0;
    while i < n
        invariant
            n == metric.time@.len(),
            n == metric.value@.len(),
            i <= n,
            schema@.contains_key(metric.meta.name@),
            key@ == series_key(schema@[metric.meta.name@], tags@),
            want.len() == n,
            forall|j: int| 0 <= j < n ==> #[trigger] want[j] == line_text(
                series_key(schema@[metric.meta.name@], tags@),
                metric.meta.name@,
                metric.value@[j]@,
                metric.time@[j] as nat,
            ),
            strings_view(lines@) == want.take(i as int),
        decreases n - i,
    {
        let mut line = key.clone();
        push_char(&mut line, ' ');
        line.append(metric.meta.name.as_str());
        push_char(&mut line, '=');
        line.append(metric.value[i].as_str());
        push_char(&mut line, ' ');
        push_timestamp_ns(&mut line, metric.time[i]);
        assert(line@ =~= want[i as int]);
        let ghost prev = lines@;
        lines.push(line);
        assert(strings_view(lines@) =~= strings_view(prev).push(want[i as int]));
        assert(want.take(i + 1) =~= want.take(i as int).push(want[i as int]));
        i = i + 1;
    }
    assert(want.take(n as int) =~= want);
    Ok(lines)
}

} // verus!
