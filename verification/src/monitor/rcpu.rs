use vstd::prelude::*;
use vstd::string::StrSliceExecFns;
use vstd::utf8::{decode_utf8, valid_utf8};

use crate::text::str_chars;

verus! {

/// Operating-system thread id, as the monitored platform numbers threads.
pub type Tid = i32;

/// An operating-system thread of the monitored process.
#[derive(Clone)]
pub struct ROsThread {
    pub tid: Tid,
    pub name: Option<String>,
}

impl ROsThread {
    pub fn new(tid: Tid, name: Option<String>) -> (r: Self)
        ensures
            r.tid == tid,
            r.name == name,
    {
        ROsThread { tid, name }
    }

    pub fn tid(&self) -> (r: Tid)
        ensures
            r == self.tid,
    {
        self.tid
    }
}

/// One sample of a thread's CPU usage.
///
/// `cpu` is the usage in hundredths of a percent of one core:
/// `9650` stands for 96.50%.
pub struct SThreadCpuSnapshot {
    pub thread: ROsThread,
    pub cpu: u64,
}

impl SThreadCpuSnapshot {
    pub fn new(thread: ROsThread, cpu: u64) -> (r: Self)
        ensures
            r.thread == thread,
            r.cpu == cpu,
    {
        SThreadCpuSnapshot { thread, cpu }
    }

    pub fn tid(&self) -> (r: Tid)
        ensures
            r == self.thread.tid,
    {
        self.thread.tid
    }

    pub fn cpu(&self) -> (r: u64)
        ensures
            r == self.cpu,
    {
        self.cpu
    }
}


// ---------------------------------------------------------------------------
// Thread names
// ---------------------------------------------------------------------------

/// The characters Unicode gives the `White_Space` property.
pub open spec fn is_white_space(c: char) -> bool {
    ||| '\u{9}' <= c <= '\u{d}'
    ||| c == ' '
    ||| c == '\u{85}'
    ||| c == '\u{a0}'
    ||| c == '\u{1680}'
    ||| '\u{2000}' <= c <= '\u{200a}'
    ||| c == '\u{2028}'
    ||| c == '\u{2029}'
    ||| c == '\u{202f}'
    ||| c == '\u{205f}'
    ||| c == '\u{3000}'
}

pub open spec fn trim_start(s: Seq<char>) -> Seq<char>
    decreases s.len(),
{
    if s.len() > 0 && is_white_space(s[0]) {
        trim_start(s.drop_first())
    } else {
        s
    }
}

pub open spec fn trim_end(s: Seq<char>) -> Seq<char>
    decreases s.len(),
{
    if s.len() > 0 && is_white_space(s.last()) {
        trim_end(s.drop_last())
    } else {
        s
    }
}

/// `s` without its leading and trailing white space.
pub open spec fn trim_white_space(s: Seq<char>) -> Seq<char> {
    trim_end(trim_start(s))
}

/// The text that `String::from_utf8_lossy` makes of `bytes`.
pub uninterp spec fn utf8_lossy(bytes: Seq<u8>) -> Seq<char>;

/// Calls `String::from_utf8_lossy`. Its documentation promises the decoded
/// text for valid UTF-8; for other input it replaces each malformed sequence
/// with U+FFFD, which is only named here, as `utf8_lossy`.
#[verifier::external_body]
fn decode_lossy(bytes: &[u8]) -> (r: String)
    ensures
        r@ == utf8_lossy(bytes@),
        valid_utf8(bytes@) ==> r@ == decode_utf8(bytes@),
{
    String::from_utf8_lossy(bytes).into_owned()
}

/// Whether `c` has the Unicode `White_Space` property.
pub fn is_white_space_char(c: char) -> (r: bool)
    ensures
        r == is_white_space(c),
{
    ('\u{9}' <= c && c <= '\u{d}') || c == ' ' || c == '\u{85}' || c == '\u{a0}' || c
        == '\u{1680}' || ('\u{2000}' <= c && c <= '\u{200a}') || c == '\u{2028}' || c == '\u{2029}'
        || c == '\u{202f}' || c == '\u{205f}' || c == '\u{3000}'
}

/// `s` without its leading and trailing white space, as `str::trim` gives it.
pub fn trim_owned(s: &str) -> (r: String)
    ensures
        r@ == trim_white_space(s@),
{
    let chars = str_chars(s);
    let n = chars.len();
    let mut start: usize = 0;
    assert(s@.skip(0) =~= s@);
    while start < n && is_white_space_char(chars[start])
        invariant
            chars@ == s@,
            n == chars.len(),
            start <= n,
            trim_start(s@) == trim_start(s@.skip(start as int)),
        decreases n - start,
    {
        assert(s@.skip(start as int).drop_first() =~= s@.skip(start + 1));
        start += 1;
    }
    assert(trim_start(s@) == s@.skip(start as int));
    let mut end: usize = n;
    assert(s@.skip(start as int) =~= s@.subrange(start as int, n as int));
    while end > start && is_white_space_char(chars[end - 1])
        invariant
            chars@ == s@,
            n == chars.len(),
            start <= end <= n,
            trim_end(s@.skip(start as int)) == trim_end(s@.subrange(start as int, end as int)),
        decreases end - start,
    {
        assert(s@.subrange(start as int, end as int).drop_last() =~= s@.subrange(
            start as int,
            end - 1,
        ));
        end -= 1;
    }
    assert(trim_end(s@.skip(start as int)) == s@.subrange(start as int, end as int));
    s.substring_char(start, end).to_owned()
}

/// The name of a thread from the content of its `comm` file: the bytes
/// decoded as UTF-8 (malformed sequences replaced), without surrounding
/// white space.
pub fn thread_name_from_comm(bytes: &[u8]) -> (name: String)
    ensures
        name@ == trim_white_space(utf8_lossy(bytes@)),
        valid_utf8(bytes@) ==> name@ == trim_white_space(decode_utf8(bytes@)),
{
    let text = decode_lossy(bytes);
    trim_owned(text.as_str())
}

/// The thread `tid`, named from the content of its `comm` file when that
/// could be read.
pub fn get_thread(tid: Tid, comm: Option<Vec<u8>>) -> (r: ROsThread)
    ensures
        r.tid == tid,
        comm is None ==> r.name is None,
        comm matches Some(bytes) ==> r.name matches Some(n) && n@ == trim_white_space(
            utf8_lossy(bytes@),
        ),
        comm matches Some(bytes) ==> (valid_utf8(bytes@) ==> (r.name matches Some(n) && n@
            == trim_white_space(decode_utf8(bytes@)))),
{
    match comm {
        Some(bytes) => ROsThread::new(tid, Some(thread_name_from_comm(bytes.as_slice()))),
        None => ROsThread::new(tid, None),
    }
}

/// The code points with the Unicode `White_Space` property, one by one.
pub open spec fn white_space_code_points() -> Set<char> {
    set![
        '\u{9}', '\u{a}', '\u{b}', '\u{c}', '\u{d}', '\u{20}', '\u{85}', '\u{a0}',
        '\u{1680}', '\u{2000}', '\u{2001}', '\u{2002}', '\u{2003}', '\u{2004}', '\u{2005}',
        '\u{2006}', '\u{2007}', '\u{2008}', '\u{2009}', '\u{200a}', '\u{2028}', '\u{2029}',
        '\u{202f}', '\u{205f}', '\u{3000}',
    ]
}

/// A character is white space exactly when it is one of the `White_Space`
/// code points; in particular no ASCII letter or digit is white space.
pub proof fn law_white_space_is_unicode_white_space(c: char)
    ensures
        is_white_space(c) <==> white_space_code_points().contains(c),
        ('0' <= c <= '9' || 'a' <= c <= 'z' || 'A' <= c <= 'Z') ==> !is_white_space(c),
{
    if '\u{9}' <= c <= '\u{d}' {
        assert(c == '\u{9}' || c == '\u{a}' || c == '\u{b}' || c == '\u{c}' || c == '\u{d}');
    }
    if '\u{2000}' <= c <= '\u{200a}' {
        assert(c == '\u{2000}' || c == '\u{2001}' || c == '\u{2002}' || c == '\u{2003}' || c
            == '\u{2004}' || c == '\u{2005}' || c == '\u{2006}' || c == '\u{2007}' || c
            == '\u{2008}' || c == '\u{2009}' || c == '\u{200a}');
    }
}

proof fn lemma_trim_start_skips(s: Seq<char>) -> (i: int)
    ensures
        0 <= i <= s.len(),
        trim_start(s) == s.skip(i),
        forall|k: int| 0 <= k < i ==> is_white_space(#[trigger] s[k]),
        i < s.len() ==> !is_white_space(s[i]),
    decreases s.len(),
{
    if s.len() > 0 && is_white_space(s[0]) {
        let t = s.drop_first();
        let i0 = lemma_trim_start_skips(t);
        assert(t.skip(i0) =~= s.skip(i0 + 1));
        assert forall|k: int| 0 <= k < i0 + 1 implies is_white_space(#[trigger] s[k]) by {
            if k > 0 {
                assert(s[k] == t[k - 1]);
            }
        }
        if i0 + 1 < s.len() {
            assert(s[i0 + 1] == t[i0]);
        }
        i0 + 1
    } else {
        assert(s.skip(0) =~= s);
        0
    }
}

proof fn lemma_trim_end_takes(s: Seq<char>) -> (j: int)
    ensures
        0 <= j <= s.len(),
        trim_end(s) == s.take(j),
        forall|k: int| j <= k < s.len() ==> is_white_space(#[trigger] s[k]),
        j > 0 ==> !is_white_space(s[j - 1]),
    decreases s.len(),
{
    if s.len() > 0 && is_white_space(s.last()) {
        let t = s.drop_last();
        let j0 = lemma_trim_end_takes(t);
        assert(t.take(j0) =~= s.take(j0));
        assert forall|k: int| j0 <= k < s.len() implies is_white_space(#[trigger] s[k]) by {
            if k < s.len() - 1 {
                assert(s[k] == t[k]);
            }
        }
        if j0 > 0 {
            assert(s[j0 - 1] == t[j0 - 1]);
        }
        j0
    } else {
        assert(s.take(s.len() as int) =~= s);
        s.len() as int
    }
}

/// Trimming keeps one contiguous part of the text and drops only white
/// space: everything before and after the part is white space, and the part
/// neither starts nor ends with white space. Text that starts and ends with
/// a character that is not white space comes back unchanged.
pub proof fn law_trim_drops_only_white_space(s: Seq<char>)
    ensures
        exists|i: int, j: int|
            #![trigger s.subrange(i, j)]
            0 <= i <= j <= s.len() && trim_white_space(s) == s.subrange(i, j) && (forall|k: int|
                0 <= k < i ==> is_white_space(#[trigger] s[k])) && (forall|k: int|
                j <= k < s.len() ==> is_white_space(#[trigger] s[k])) && (i < j ==> !is_white_space(
                s[i]) && !is_white_space(s[j - 1])),
        s.len() > 0 && !is_white_space(s[0]) && !is_white_space(s.last()) ==> trim_white_space(s)
            == s,
{
    let i = lemma_trim_start_skips(s);
    let t = s.skip(i);
    let j = lemma_trim_end_takes(t);
    assert(t.take(j) =~= s.subrange(i, i + j));
    assert forall|k: int| i + j <= k < s.len() implies is_white_space(#[trigger] s[k]) by {
        assert(s[k] == t[k - i]);
    }
    if j > 0 {
        assert(s[i] == t[0]);
        assert(s[i + j - 1] == t[j - 1]);
    }
    assert(trim_white_space(s) == s.subrange(i, i + j));
    if s.len() > 0 && !is_white_space(s[0]) && !is_white_space(s.last()) {
        assert(i == 0);
        assert(t =~= s);
        assert(j == s.len());
        assert(s.subrange(0, s.len() as int) =~= s);
    }
}

} // verus!
