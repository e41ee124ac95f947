//! The IMAP IDLE worker's decision logic: parsing untagged-response text
//! pushed by the server during IDLE, extracting the sequence numbers of
//! newly arrived messages from EXISTS lines, and deciding whether the next
//! step is a batch fetch or another watch cycle. The connection, login and
//! the IDLE wait itself stand outside the library; they hand events in and
//! carry the decided step out.
use crate::errors::EmailError;
use crate::errors::EmailResult;
use crate::utils::lemma_find_char;
use crate::utils::spec_find_char;
use vstd::prelude::*;

verus! {

/// The fixed IMAP-over-TLS port; TLS is implicit on connect.
pub const IMAP_PORT: u16 = 993;

/// Seconds an IDLE wait may sleep before a local interrupt wakes it.
pub const IDLE_TIMEOUT_SECS: u64 = 30;

/// `s` split at every occurrence of `sep`, separators removed and empty
/// segments kept.
pub open spec fn spec_split(s: Seq<char>, sep: char) -> Seq<Seq<char>>
    decreases s.len(),
{
    match spec_find_char(s, sep) {
        Some(i) => if 0 <= i < s.len() {
            seq![s.subrange(0, i)] + spec_split(s.skip(i + 1), sep)
        } else {
            seq![s]
        },
        None => seq![s],
    }
}

/// True when `pat` occurs somewhere in `s` as a contiguous run.
pub open spec fn spec_contains_seq(s: Seq<char>, pat: Seq<char>) -> bool {
    exists|i: int| 0 <= i <= s.len() - pat.len() && #[trigger] s.subrange(i, i + pat.len()) == pat
}

/// The nonempty segments of a segment list, in order.
pub open spec fn spec_nonempty(segs: Seq<Seq<char>>) -> Seq<Seq<char>>
    decreases segs.len(),
{
    if segs.len() == 0 {
        Seq::empty()
    } else {
        let rest = spec_nonempty(segs.skip(1));
        if segs[0].len() > 0 {
            seq![segs[0]] + rest
        } else {
            rest
        }
    }
}

/// Whitespace, as it separates the fields of a line: space, tab, carriage
/// return or line feed.
pub open spec fn is_space(c: char) -> bool {
    c == ' ' || c == '\t' || c == '\r' || c == '\n'
}

/// The index of the first whitespace character of `s`, if any.
pub open spec fn spec_find_ws(s: Seq<char>) -> Option<int>
    decreases s.len(),
{
    if s.len() == 0 {
        None
    } else if is_space(s[0]) {
        Some(0int)
    } else {
        match spec_find_ws(s.skip(1)) {
            Some(i) => Some(i + 1),
            None => None,
        }
    }
}

/// `spec_find_ws` returns exactly the first whitespace position.
proof fn lemma_find_ws(s: Seq<char>)
    ensures
        match spec_find_ws(s) {
            Some(i) => 0 <= i < s.len() && is_space(s[i]) && forall|j: int|
                0 <= j < i ==> !is_space(s[j]),
            None => forall|j: int| 0 <= j < s.len() ==> !is_space(s[j]),
        },
    decreases s.len(),
{
    if s.len() == 0 {
    } else if is_space(s[0]) {
    } else {
        lemma_find_ws(s.skip(1));
        match spec_find_ws(s.skip(1)) {
            Some(i) => {
                assert(s.skip(1)[i] == s[i + 1]);
                assert forall|j: int| 0 <= j < i + 1 implies !is_space(s[j]) by {
                    if j > 0 {
                        assert(s.skip(1)[j - 1] == s[j]);
                    }
                }
            },
            None => {
                assert forall|j: int| 0 <= j < s.len() implies !is_space(s[j]) by {
                    if j > 0 {
                        assert(s.skip(1)[j - 1] == s[j]);
                    }
                }
            },
        }
    }
}

/// `s` split at every whitespace character, separators removed and empty
/// segments kept.
pub open spec fn spec_split_ws(s: Seq<char>) -> Seq<Seq<char>>
    decreases s.len(),
{
    match spec_find_ws(s) {
        Some(i) => if 0 <= i < s.len() {
            seq![s.subrange(0, i)] + spec_split_ws(s.skip(i + 1))
        } else {
            seq![s]
        },
        None => seq![s],
    }
}

/// The whitespace-separated fields of a line: its maximal whitespace-free
/// runs. Leading and trailing whitespace contributes none.
pub open spec fn spec_fields(line: Seq<char>) -> Seq<Seq<char>> {
    spec_nonempty(spec_split_ws(line))
}

fn is_space_char(c: char) -> (r: bool)
    ensures
        r == is_space(c),
{
    c == ' ' || c == '\t' || c == '\r' || c == '\n'
}

/// Splits `s` at every whitespace character, keeping empty segments.
pub fn split_ws(s: &str) -> (r: Vec<String>)
    ensures
        r.deep_view() == spec_split_ws(s@),
    decreases s@.len(),
{
    let n = s.unicode_len();
    let mut i: usize = 0;
    while i < n
        invariant
            n == s@.len(),
            i <= n,
            forall|j: int| 0 <= j < i ==> !is_space(s@[j]),
        decreases n - i,
    {
        if is_space_char(s.get_char(i)) {
            proof {
                lemma_find_ws(s@);
            }
            assert(spec_find_ws(s@) == Some(i as int));
            let head = String::from_str(s.substring_char(0, i));
            let tail = s.substring_char(i + 1, n);
            let mut rest = split_ws(tail);
            let ghost rest0 = rest.deep_view();
            rest.insert(0, head);
            assert(rest.deep_view() =~= seq![head@] + rest0);
            return rest;
        }
        i += 1;
    }
    proof {
        lemma_find_ws(s@);
    }
    assert(spec_find_ws(s@) is None);
    let mut out: Vec<String> = Vec::new();
    out.push(String::from_str(s));
    assert(out.deep_view() =~= seq![s@]);
    out
}

/// Splits `s` at `sep`, keeping empty segments.
pub fn split_char(s: &str, sep: char) -> (r: Vec<String>)
    ensures
        r.deep_view() == spec_split(s@, sep),
    decreases s@.len(),
{
    let n = s.unicode_len();
    let mut i: usize = 0;
    while i < n
        invariant
            n == s@.len(),
            i <= n,
            forall|j: int| 0 <= j < i ==> s@[j] != sep,
        decreases n - i,
    {
        if s.get_char(i) == sep {
            proof {
                lemma_find_char(s@, sep);
            }
            assert(spec_find_char(s@, sep) == Some(i as int));
            let head = String::from_str(s.substring_char(0, i));
            let tail = s.substring_char(i + 1, n);
            let mut rest = split_char(tail, sep);
            let ghost rest0 = rest.deep_view();
            rest.insert(0, head);
            assert(rest.deep_view() =~= seq![head@] + rest0);
            return rest;
        }
        i += 1;
    }
    proof {
        lemma_find_char(s@, sep);
    }
    assert(spec_find_char(s@, sep) is None);
    let mut out: Vec<String> = Vec::new();
    out.push(String::from_str(s));
    assert(out.deep_view() =~= seq![s@]);
    out
}

fn match_at(s: &str, pat: &str, i: usize) -> (r: bool)
    requires
        i + pat@.len() <= s@.len(),
    ensures
        r == (s@.subrange(i as int, i + pat@.len()) == pat@),
{
    let n = s.unicode_len();
    let m = pat.unicode_len();
    let mut j: usize = 0;
    while j < m
        invariant
            n == s@.len(),
            m == pat@.len(),
            i + m <= n,
            j <= m,
            forall|k: int| 0 <= k < j ==> s@[i + k] == pat@[k],
        decreases m - j,
    {
        if s.get_char(i + j) != pat.get_char(j) {
            assert(s@.subrange(i as int, i + pat@.len())[j as int] != pat@[j as int]);
            return false;
        }
        j += 1;
    }
    assert(s@.subrange(i as int, i + pat@.len()) =~= pat@);
    true
}

/// True when `pat` occurs as a contiguous run inside `s`.
pub fn contains_substr(s: &str, pat: &str) -> (r: bool)
    ensures
        r == spec_contains_seq(s@, pat@),
{
    let n = s.unicode_len();
    let m = pat.unicode_len();
    if m > n {
        assert(!spec_contains_seq(s@, pat@));
        return false;
    }
    if m == 0 {
        assert(s@.subrange(0int, 0int + pat@.len() as int) =~= pat@);
        return true;
    }
    let mut i: usize = 0;
    while i <= n - m
        invariant
            n == s@.len(),
            m == pat@.len(),
            0 < m <= n,
            i <= n - m + 1,
            forall|k: int| 0 <= k < i ==> #[trigger] s@.subrange(k, k + pat@.len()) != pat@,
        decreases n - i,
    {
        if match_at(s, pat, i) {
            return true;
        }
        i += 1;
    }
    false
}

/// The fields of `line`: its maximal whitespace-free runs, in order.
pub fn fields_of(line: &String) -> (r: Vec<String>)
    ensures
        r.deep_view() == spec_fields(line@),
{
    let segs = split_ws(line.as_str());
    let ghost sd = segs.deep_view();
    let mut out: Vec<String> = Vec::new();
    let mut i: usize = 0;
    assert(sd.skip(0) =~= sd);
    assert(out.deep_view() + spec_nonempty(sd) =~= spec_nonempty(sd));
    while i < segs.len()
        invariant
            i <= segs@.len(),
            sd == segs.deep_view(),
            spec_nonempty(sd) == out.deep_view() + spec_nonempty(sd.skip(i as int)),
        decreases segs@.len() - i,
    {
        let ghost prev = out.deep_view();
        if !segs[i].as_str().is_empty() {
            let e = &segs[i];
            out.push(e.clone());
            assert(out.deep_view() =~= prev + seq![segs@[i as int]@]);
        }
        i += 1;
        proof {
            assert(sd.skip(i - 1).skip(1) =~= sd.skip(i as int));
            assert(sd.skip(i - 1)[0] == sd[i - 1]);
            assert(sd[i - 1] == segs@[i - 1]@);
            if sd[i - 1].len() > 0 {
                assert(out.deep_view() + spec_nonempty(sd.skip(i as int)) =~= prev + (seq![
                    sd[i - 1],
                ] + spec_nonempty(sd.skip(i as int))));
            }
        }
    }
    proof {
        assert(sd.skip(sd.len() as int) =~= Seq::<Seq<char>>::empty());
        assert(spec_nonempty(Seq::<Seq<char>>::empty()) =~= Seq::<Seq<char>>::empty());
        assert(out.deep_view() + Seq::<Seq<char>>::empty() =~= out.deep_view());
    }
    out
}

/// The sequence numbers of the EXISTS lines of `lines`, in encounter order:
/// the second field of every line containing `token`. Nothing when some such
/// line has no second field — a malformed notification is surfaced, never
/// swallowed.
pub open spec fn spec_extract(lines: Seq<Seq<char>>, token: Seq<char>) -> Option<Seq<Seq<char>>>
    decreases lines.len(),
{
    if lines.len() == 0 {
        Some(Seq::empty())
    } else {
        let rest = spec_extract(lines.skip(1), token);
        if spec_contains_seq(lines[0], token) {
            let f = spec_fields(lines[0]);
            if f.len() < 2 {
                None
            } else {
                match rest {
                    Some(r) => Some(seq![f[1]] + r),
                    None => None,
                }
            }
        } else {
            rest
        }
    }
}

/// What IDLE notification text yields: the sequence numbers of its EXISTS
/// lines, or nothing when an EXISTS line is malformed.
pub open spec fn spec_exists_seqs(idle_data: Seq<char>) -> Option<Seq<Seq<char>>> {
    spec_extract(spec_split(idle_data, '\n'), "EXISTS"@)
}

spec fn spec_prepend(p: Seq<Seq<char>>, rest: Option<Seq<Seq<char>>>) -> Option<Seq<Seq<char>>> {
    match rest {
        Some(r) => Some(p + r),
        None => None,
    }
}

/// `parts` joined with `sep` between consecutive parts.
pub open spec fn spec_join(parts: Seq<Seq<char>>, sep: char) -> Seq<char>
    decreases parts.len(),
{
    if parts.len() == 0 {
        Seq::empty()
    } else if parts.len() == 1 {
        parts[0]
    } else {
        spec_join(parts.drop_last(), sep) + seq![sep] + parts.last()
    }
}

/// Joins the parts with a comma between consecutive parts, as an IMAP
/// sequence set is written.
pub fn join_comma(parts: &Vec<String>) -> (r: String)
    ensures
        r@ == spec_join(parts.deep_view(), ','),
{
    let ghost pd = parts.deep_view();
    let mut out = String::new();
    let mut i: usize = 0;
    assert(pd.take(0) =~= Seq::<Seq<char>>::empty());
    while i < parts.len()
        invariant
            i <= parts@.len(),
            pd == parts.deep_view(),
            out@ == spec_join(pd.take(i as int), ','),
        decreases parts@.len() - i,
    {
        if i > 0 {
            out.append(",");
            proof {
                reveal_strlit(",");
            }
            assert(","@ =~= seq![',']);
        }
        out.append(parts[i].as_str());
        i += 1;
        proof {
            assert(pd.take(i as int).drop_last() =~= pd.take(i - 1));
            assert(pd.take(i as int).last() == pd[i - 1]);
            assert(pd[i - 1] == parts@[i - 1]@);
            if i == 1 {
                assert(Seq::<char>::empty() + parts@[0]@ =~= parts@[0]@);
                assert(pd.take(1int)[0] == pd[0]);
            }
        }
    }
    assert(pd.take(pd.len() as int) =~= pd);
    out
}

/// What ends one IDLE wait: unsolicited server data, or an interruption (the
/// local timeout, or any other idle-termination reason without new data).
#[derive(Clone, Debug, PartialEq, Eq)]
pub enum IdleEvent {
    ServerData(String),
    Interrupted,
}

/// The step decided from an IDLE outcome: fetch the listed sequence set in
/// one batch, or start another watch cycle without fetching.
#[derive(Clone, Debug, PartialEq, Eq)]
pub enum IdleStep {
    Fetch { seq_set: String },
    Rewatch,
}

/// One IMAP IDLE worker: watches one account's inbox, extracting new-message
/// sequence numbers from server push notifications. The TLS session itself
/// stands outside the library.
pub struct MailReader {
    pub imap_host: String,
}

impl MailReader {
    pub fn new(imap_host: &str) -> (r: Self)
        ensures
            r.imap_host@ == imap_host@,
    {
        Self { imap_host: imap_host.to_owned() }
    }

    /// Extracts, from raw IDLE notification text, the second
    /// whitespace-separated field of every line containing "EXISTS", in
    /// encounter order; lines without "EXISTS" are ignored. Returns nothing
    /// when an EXISTS line has no second field: such a malformed
    /// notification is surfaced to the caller as a defect.
    pub fn get_exists_from_idle(idle_data: &str) -> (r: Option<Vec<String>>)
        ensures
            r.deep_view() == spec_exists_seqs(idle_data@),
    {
        let segs = split_char(idle_data, '\n');
        let ghost sd = segs.deep_view();
        let ghost tok = "EXISTS"@;
        let mut out: Vec<String> = Vec::new();
        let mut i: usize = 0;
        assert(sd.skip(0) =~= sd);
        assert(spec_prepend(out.deep_view(), spec_extract(sd, tok)) == spec_extract(sd, tok)) by {
            if spec_extract(sd, tok) is Some {
                assert(out.deep_view() + spec_extract(sd, tok)->0 =~= spec_extract(sd, tok)->0);
            }
        }
        while i < segs.len()
            invariant
                i <= segs@.len(),
                sd == segs.deep_view(),
                sd == spec_split(idle_data@, '\n'),
                tok == "EXISTS"@,
                spec_extract(sd, tok) == spec_prepend(
                    out.deep_view(),
                    spec_extract(sd.skip(i as int), tok),
                ),
            decreases segs@.len() - i,
        {
            let ghost prev = out.deep_view();
            proof {
                assert(sd.skip(i as int).skip(1) =~= sd.skip(i + 1));
                assert(sd.skip(i as int)[0] == sd[i as int]);
                assert(sd[i as int] == segs@[i as int]@);
            }
            let line = &segs[i];
            if contains_substr(line.as_str(), "EXISTS") {
                let f = fields_of(line);
                if f.len() < 2 {
                    assert(spec_extract(sd.skip(i as int), tok) is None);
                    assert(spec_extract(sd, tok) is None);
                    return None;
                }
                let e = &f[1];
                out.push(e.clone());
                assert(out.deep_view() =~= prev + seq![spec_fields(sd[i as int])[1]]);
                proof {
                    if spec_extract(sd.skip(i + 1), tok) is Some {
                        assert(prev + (seq![spec_fields(sd[i as int])[1]] + spec_extract(
                            sd.skip(i + 1),
                            tok,
                        )->0) =~= out.deep_view() + spec_extract(sd.skip(i + 1), tok)->0);
                    }
                }
            }
            i += 1;
        }
        proof {
            assert(sd.skip(sd.len() as int) =~= Seq::<Seq<char>>::empty());
            assert(out.deep_view() + Seq::<Seq<char>>::empty() =~= out.deep_view());
        }
        Some(out)
    }

    /// Decides the next step of the IDLE cycle from what ended the wait.
    /// Server data yields a batch fetch of exactly the sequence numbers its
    /// EXISTS lines report, joined into one sequence set; data carrying no
    /// EXISTS line (a RECENT-only push) yields another watch cycle, never an
    /// empty fetch; a malformed EXISTS line is a protocol anomaly, surfaced
    /// as an error; an interruption (the local timeout) yields another watch
    /// cycle and never a fetch.
    pub fn handle_idle_event(event: &IdleEvent) -> (r: EmailResult<IdleStep>)
        ensures
            match event {
                IdleEvent::Interrupted => r == Ok::<IdleStep, EmailError>(IdleStep::Rewatch),
                IdleEvent::ServerData(s) => match spec_exists_seqs(s@) {
                    Some(seqs) => if seqs.len() == 0 {
                        r == Ok::<IdleStep, EmailError>(IdleStep::Rewatch)
                    } else {
                        r matches Ok(step) && step matches IdleStep::Fetch { seq_set }
                            && seq_set@ == spec_join(seqs, ',')
                    },
                    None => r matches Err(e) && e is Imap,
                },
            },
    {
        match event {
            IdleEvent::Interrupted => Ok(IdleStep::Rewatch),
            IdleEvent::ServerData(s) => match Self::get_exists_from_idle(s.as_str()) {
                Some(seqs) => {
                    if seqs.is_empty() {
                        Ok(IdleStep::Rewatch)
                    } else {
                        let seq_set = join_comma(&seqs);
                        Ok(IdleStep::Fetch { seq_set })
                    }
                },
                None => Err(
                    EmailError::Imap(String::from_str("malformed EXISTS line in IDLE data")),
                ),
            },
        }
    }
}

} // verus!
