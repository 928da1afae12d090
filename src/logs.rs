//! Structured queries over a node's log: the lines at a given level whose
//! message holds a given text.
use vstd::prelude::*;
use vstd::string::StrSliceExecFns;

verus! {

/// Severity of a log line.
#[derive(Debug, Clone, Copy, PartialEq, Eq, Structural)]
pub enum LogLevel {
    Trace,
    Debug,
    Info,
    Warn,
    Error,
}

/// One line of a node's log, as the node structures it.
#[derive(Debug, Clone, PartialEq, Eq)]
pub struct LogEntry {
    pub level: LogLevel,
    pub message: String,
}

/// `needle` occurs in `hay` as a contiguous run.
pub open spec fn contains_text(hay: Seq<char>, needle: Seq<char>) -> bool {
    exists|i: int| 0 <= i && i + needle.len() <= hay.len() && #[trigger] hay.subrange(i, i + needle.len()) == needle
}

/// The messages of the entries at `level` whose message holds `pattern`, in log order.
pub open spec fn matching_messages(entries: Seq<LogEntry>, level: LogLevel, pattern: Seq<char>) -> Seq<
    Seq<char>,
>
    decreases entries.len(),
{
    if entries.len() == 0 {
        Seq::empty()
    } else {
        let p = matching_messages(entries.drop_last(), level, pattern);
        let e = entries.last();
        if e.level == level && contains_text(e.message@, pattern) {
            p.push(e.message@)
        } else {
            p
        }
    }
}

fn chars_of(s: &str) -> (r: Vec<char>)
    ensures
        r@ == s@,
{
    let n = s.unicode_len();
    let mut r: Vec<char> = Vec::new();
    let mut i: usize = 0;
    while i < n
        invariant
            n == s@.len(),
            i <= n,
            r@ == s@.take(i as int),
        decreases n - i,
    {
        r.push(s.get_char(i));
        i += 1;
        assert(r@ =~= s@.take(i as int));
    }
    assert(s@.take(i as int) =~= s@);
    r
}

/// Whether `needle` occurs in `hay`.
pub fn text_contains(hay: &str, needle: &str) -> (r: bool)
    ensures
        r == contains_text(hay@, needle@),
{
    let h = chars_of(hay);
    let m = chars_of(needle);
    if m.len() > h.len() {
        return false;
    }
    let last = h.len() - m.len();
    let mut i: usize = 0;
    loop
        invariant
            h@ == hay@,
            m@ == needle@,
            m@.len() <= h@.len(),
            h@.len() <= usize::MAX,
            last == h@.len() - m@.len(),
            i <= last,
            forall|j: int| 0 <= j < i ==> #[trigger] h@.subrange(j, j + m@.len()) != m@,
        decreases last - i,
    {
        let mut k: usize = 0;
        let mut same = true;
        while k < m.len()
            invariant_except_break
                same,
            invariant
                i <= last,
                h@.len() <= usize::MAX,
                m@.len() <= h@.len(),
                last == h@.len() - m@.len(),
                k <= m@.len(),
                forall|t: int| 0 <= t < k ==> h@[i + t] == m@[t],
            ensures
                same ==> k == m@.len(),
                !same ==> k < m@.len() && h@[i + k] != m@[k as int],
            decreases m.len() - k,
        {
            if h[i + k] != m[k] {
                same = false;
                break;
            }
            k += 1;
        }
        if same {
            assert(h@.subrange(i as int, i + m@.len()) =~= m@);
            return true;
        }
        assert(h@.subrange(i as int, i + m@.len())[k as int] == h@[i + k]);
        if i == last {
            return false;
        }
        i += 1;
    }
}

/// The messages of the entries at `level` whose message holds `pattern`, in
/// log order; an empty pattern selects every entry at that level.
pub fn lines_matching(entries: &Vec<LogEntry>, level: LogLevel, pattern: &str) -> (r: Vec<String>)
    ensures
        r@.map_values(|s: String| s@) == matching_messages(entries@, level, pattern@),
{
    let mut r: Vec<String> = Vec::new();
    let mut i: usize = 0;
    while i < entries.len()
        invariant
            i <= entries@.len(),
            r@.map_values(|s: String| s@) == matching_messages(entries@.take(i as int), level, pattern@),
        decreases entries.len() - i,
    {
        let e = &entries[i];
        assert(entries@.take(i + 1).drop_last() == entries@.take(i as int));
        if e.level == level && text_contains(e.message.as_str(), pattern) {
            r.push(e.message.clone());
        }
        i += 1;
        assert(r@.map_values(|s: String| s@) =~= matching_messages(entries@.take(i as int), level, pattern@));
    }
    assert(entries@.take(i as int) == entries@);
    r
}

} // verus!
