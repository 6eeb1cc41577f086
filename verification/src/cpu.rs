//! The processor's description as the kernel logs it at start: vendor,
//! brand and frequency on one line, and the caches on another.
use vstd::prelude::*;
use vstd::string::StrSliceExecFns;
use raw_cpuid::CpuId;
use crate::terminal::{is_white_space, string_views};

verus! {

/// `s` without its leading whitespace.
pub open spec fn trim_start(s: Seq<char>) -> Seq<char>
    decreases s.len(),
{
    if s.len() > 0 && is_white_space(s[0]) {
        trim_start(s.drop_first())
    } else {
        s
    }
}

/// `s` without its trailing whitespace.
pub open spec fn trim_end(s: Seq<char>) -> Seq<char>
    decreases s.len(),
{
    if s.len() > 0 && is_white_space(s.last()) {
        trim_end(s.drop_last())
    } else {
        s
    }
}

/// `s` without its leading and trailing whitespace, as `str::trim` gives it.
pub open spec fn trimmed(s: Seq<char>) -> Seq<char> {
    trim_end(trim_start(s))
}

proof fn lemma_trim_start(s: Seq<char>) -> (i: int)
    ensures
        0 <= i <= s.len(),
        trim_start(s) == s.subrange(i, s.len() as int),
        forall|k: int| 0 <= k < i ==> is_white_space(#[trigger] s[k]),
        i < s.len() ==> !is_white_space(s[i]),
    decreases s.len(),
{
    if s.len() > 0 && is_white_space(s[0]) {
        let t = s.drop_first();
        let j = lemma_trim_start(t);
        assert forall|k: int| 0 <= k < j + 1 implies is_white_space(#[trigger] s[k]) by {
            if k > 0 {
                assert(s[k] == t[k - 1]);
            }
        }
        assert(t.subrange(j, t.len() as int) =~= s.subrange(j + 1, s.len() as int));
        if j + 1 < s.len() {
            assert(s[j + 1] == t[j]);
        }
        j + 1
    } else {
        assert(s.subrange(0, s.len() as int) =~= s);
        0
    }
}

proof fn lemma_trim_end(s: Seq<char>) -> (j: int)
    ensures
        0 <= j <= s.len(),
        trim_end(s) == s.subrange(0, j),
        forall|k: int| j <= k < s.len() ==> is_white_space(#[trigger] s[k]),
        j > 0 ==> !is_white_space(s[j - 1]),
    decreases s.len(),
{
    if s.len() > 0 && is_white_space(s.last()) {
        let t = s.drop_last();
        let j = lemma_trim_end(t);
        assert forall|k: int| j <= k < s.len() implies is_white_space(#[trigger] s[k]) by {
            if k < t.len() {
                assert(s[k] == t[k]);
            }
        }
        assert(t.subrange(0, j) =~= s.subrange(0, j));
        if j > 0 {
            assert(s[j - 1] == t[j - 1]);
        }
        j
    } else {
        assert(s.subrange(0, s.len() as int) =~= s);
        s.len() as int
    }
}

/// Trimming removes exactly the whitespace at both ends: the trimmed text
/// is a piece of `s` with whitespace alone before and after it, and it
/// neither starts nor ends with whitespace.
pub proof fn lemma_trimmed_strips_white_space(s: Seq<char>)
    ensures
        exists|i: int, j: int| #![trigger s.subrange(i, j)]
            0 <= i <= j <= s.len() && trimmed(s) == s.subrange(i, j)
            && (forall|k: int| 0 <= k < i ==> is_white_space(#[trigger] s[k]))
            && (forall|k: int| j <= k < s.len() ==> is_white_space(#[trigger] s[k])),
        trimmed(s).len() > 0 ==> !is_white_space(trimmed(s)[0]) && !is_white_space(trimmed(s).last()),
{
    let i = lemma_trim_start(s);
    let t = trim_start(s);
    let m = lemma_trim_end(t);
    let j = i + m;
    assert(t.subrange(0, m) =~= s.subrange(i, j));
    assert forall|k: int| j <= k < s.len() implies is_white_space(#[trigger] s[k]) by {
        assert(s[k] == t[k - i]);
    }
    if m > 0 {
        assert(trimmed(s)[0] == s[i]);
        assert(trimmed(s).last() == t[m - 1]);
    }
    assert(trimmed(s) == s.subrange(i, j));
}

/// `s` without its leading and trailing whitespace.
pub fn trim(s: &str) -> (r: &str)
    ensures
        r@ == trimmed(s@),
{
    let n = s.unicode_len();
    let mut start: usize = 0;
    proof {
        assert(s@.subrange(0, n as int) =~= s@);
    }
    while start < n && crate::terminal::char_is_whitespace(s.get_char(start))
        invariant
            n == s@.len(),
            start <= n,
            trim_start(s@) == trim_start(s@.subrange(start as int, n as int)),
        decreases n - start,
    {
        proof {
            let t = s@.subrange(start as int, n as int);
            assert(t.drop_first() =~= s@.subrange(start + 1, n as int));
            assert(t[0] == s@[start as int]);
        }
        start = start + 1;
    }
    proof {
        let t = s@.subrange(start as int, n as int);
        if start < n {
            assert(t[0] == s@[start as int]);
        }
        assert(trim_start(s@) == t);
    }
    let mut end: usize = n;
    while end > start && crate::terminal::char_is_whitespace(s.get_char(end - 1))
        invariant
            n == s@.len(),
            start <= end <= n,
            trim_end(s@.subrange(start as int, n as int)) == trim_end(s@.subrange(start as int, end as int)),
        decreases end,
    {
        proof {
            let t = s@.subrange(start as int, end as int);
            assert(t.drop_last() =~= s@.subrange(start as int, end - 1));
            assert(t.last() == s@[end - 1]);
        }
        end = end - 1;
    }
    proof {
        let t = s@.subrange(start as int, end as int);
        if end > start {
            assert(t.last() == s@[end - 1]);
        }
        assert(trim_end(t) == t);
    }
    s.substring_char(start, end)
}

/// The line that describes the processor.
pub open spec fn cpu_info_text(vendor: Seq<char>, brand: Seq<char>, frequency: Seq<char>) -> Seq<char> {
    vendor + " "@ + trimmed(brand) + " ("@ + frequency + ")"@
}

/// The line that describes the caches.
pub open spec fn cache_info_text(cache: Seq<char>) -> Seq<char> {
    "CPU cache "@ + cache + "\n"@
}

/// The line that describes the processor: the vendor, the brand without
/// surrounding whitespace, and the frequency information in brackets.
pub fn cpu_info_line(vendor: &str, brand: &str, frequency: &str) -> (r: String)
    ensures
        r@ == cpu_info_text(vendor@, brand@, frequency@),
{
    let mut line = vendor.to_owned();
    line.append(" ");
    line.append(trim(brand));
    line.append(" (");
    line.append(frequency);
    line.append(")");
    line
}

/// The line that describes the caches.
pub fn cache_info_line(cache: &str) -> (r: String)
    ensures
        r@ == cache_info_text(cache@),
{
    let mut line = "CPU cache ".to_owned();
    line.append(cache);
    line.append("\n");
    line
}

/// `CpuId::get_vendor_info` of `raw_cpuid`, on a fresh `CpuId` reading the
/// processor, as its `as_str` text.  What comes back depends on the
/// processor.
#[verifier::external_body]
fn cpu_vendor() -> Option<String> {
    match CpuId::new().get_vendor_info() {
        Some(vendor) => Some(vendor.as_str().to_owned()),
        None => None,
    }
}

/// `CpuId::get_processor_brand_string` of `raw_cpuid`, on a fresh `CpuId`
/// reading the processor, as its `as_str` text.  What comes back depends on
/// the processor.
#[verifier::external_body]
fn cpu_brand() -> Option<String> {
    match CpuId::new().get_processor_brand_string() {
        Some(brand) => Some(brand.as_str().to_owned()),
        None => None,
    }
}

/// `CpuId::get_processor_frequency_info` of `raw_cpuid`, on a fresh `CpuId`
/// reading the processor, written with its `Debug` format.  What comes back
/// depends on the processor.
#[verifier::external_body]
fn cpu_frequency() -> String {
    format!("{:?}", CpuId::new().get_processor_frequency_info())
}

/// `CpuId::get_cache_info` of `raw_cpuid`, on a fresh `CpuId` reading the
/// processor, written with its `Debug` format.  What comes back depends on
/// the processor.
#[verifier::external_body]
fn cpu_cache() -> Option<String> {
    match CpuId::new().get_cache_info() {
        Some(cache) => Some(format!("{:?}", cache)),
        None => None,
    }
}

/// The characters of an optional text.
pub open spec fn text_of(s: Option<&str>) -> Option<Seq<char>> {
    match s {
        Some(t) => Some(t@),
        None => None,
    }
}

/// The lines that describe the processor from what it reports: none where
/// it reports no vendor or no brand, else the processor line, then the
/// cache line where it reports its caches.
pub open spec fn cpu_info_texts(
    vendor: Option<Seq<char>>,
    brand: Option<Seq<char>>,
    frequency: Seq<char>,
    cache: Option<Seq<char>>,
) -> Option<Seq<Seq<char>>> {
    match (vendor, brand) {
        (Some(v), Some(b)) => Some(seq![cpu_info_text(v, b, frequency)] + match cache {
            Some(c) => seq![cache_info_text(c)],
            None => Seq::<Seq<char>>::empty(),
        }),
        _ => None,
    }
}

/// The lines that describe the processor from its vendor, brand, frequency
/// information and cache information.
pub fn cpu_info_lines(vendor: Option<&str>, brand: Option<&str>, frequency: &str, cache: Option<&str>) -> (r: Option<Vec<String>>)
    ensures
        match r {
            Some(lines) => cpu_info_texts(text_of(vendor), text_of(brand), frequency@, text_of(cache)) == Some(string_views(lines@)),
            None => cpu_info_texts(text_of(vendor), text_of(brand), frequency@, text_of(cache)) is None,
        },
{
    let vendor = match vendor {
        Some(v) => v,
        None => return None,
    };
    let brand = match brand {
        Some(b) => b,
        None => return None,
    };
    let mut lines: Vec<String> = Vec::new();
    lines.push(cpu_info_line(vendor, brand, frequency));
    match cache {
        Some(c) => {
            lines.push(cache_info_line(c));
        },
        None => {},
    }
    proof {
        assert(string_views(lines@) =~= cpu_info_texts(text_of(Some(vendor)), text_of(Some(brand)), frequency@, text_of(cache)).unwrap());
    }
    Some(lines)
}

/// The lines that describe the processor, to be logged: the processor
/// line, then the cache line where the processor reports its caches.
/// `None` where the processor reports no vendor or no brand.
pub fn write_cpu_info() -> (r: Option<Vec<String>>)
    ensures
        r matches Some(lines) ==> {
            &&& 1 <= lines.len() <= 2
            &&& exists|vendor: Seq<char>, brand: Seq<char>, frequency: Seq<char>|
                lines[0]@ == #[trigger] cpu_info_text(vendor, brand, frequency)
            &&& lines.len() == 2 ==> exists|cache: Seq<char>| lines[1]@ == #[trigger] cache_info_text(cache)
        },
{
    let vendor = cpu_vendor();
    let brand = match vendor {
        Some(_) => cpu_brand(),
        None => None,
    };
    let (frequency, cache) = match (&vendor, &brand) {
        (Some(_), Some(_)) => (cpu_frequency(), cpu_cache()),
        _ => (String::new(), None),
    };
    let v = match &vendor {
        Some(t) => Some(t.as_str()),
        None => None,
    };
    let b = match &brand {
        Some(t) => Some(t.as_str()),
        None => None,
    };
    let c = match &cache {
        Some(t) => Some(t.as_str()),
        None => None,
    };
    let r = cpu_info_lines(v, b, frequency.as_str(), c);
    proof {
        if r is Some {
            let lines = r.unwrap();
            let texts = cpu_info_texts(text_of(v), text_of(b), frequency@, text_of(c));
            assert(texts == Some(string_views(lines@)));
            assert(text_of(v) is Some && text_of(b) is Some);
            let vv = text_of(v).unwrap();
            let bb = text_of(b).unwrap();
            assert(string_views(lines@).len() == lines@.len());
            assert(1 <= lines@.len() <= 2);
            assert(lines[0]@ == string_views(lines@)[0]);
            assert(lines[0]@ == cpu_info_text(vv, bb, frequency@));
            if lines.len() == 2 {
                assert(text_of(c) is Some);
                let cc = text_of(c).unwrap();
                assert(lines[1]@ == string_views(lines@)[1]);
                assert(lines[1]@ == cache_info_text(cc));
            }
        }
    }
    r
}

} // verus!
