//! Recipient flattening, e-mail domain extraction, and byte-sequence search
//! and replace: the per-message computations of the SMTP sender path and of
//! the one-shot prepare pass.
use crate::account::MailAccount;
use crate::message::MailAddr;
use crate::message::MailMessage;
use crate::message::RecipientHeader;
use crate::message::parse_message;
use crate::message::spec_parsed;
use crate::message::spec_addr_list;
use crate::message::spec_flat_recipients;
use crate::message::spec_recipients;
use vstd::prelude::*;
use vstd::slice::slice_to_vec;
use vstd::string::StrSliceExecFns;
use vstd::utf8::encode_utf8;

verus! {

/// The index of the first occurrence of `c` in `s`, if any.
pub open spec fn spec_find_char(s: Seq<char>, c: char) -> Option<int>
    decreases s.len(),
{
    if s.len() == 0 {
        None
    } else if s[0] == c {
        Some(0int)
    } else {
        match spec_find_char(s.skip(1), c) {
            Some(i) => Some(i + 1),
            None => None,
        }
    }
}

/// The domain of an e-mail address: the text after the first `@`, or nothing
/// when the address holds no `@` at all.
pub open spec fn spec_domain_of(email: Seq<char>) -> Option<Seq<char>> {
    match spec_find_char(email, '@') {
        Some(i) => Some(email.subrange(i + 1, email.len() as int)),
        None => None,
    }
}

/// `spec_find_char` returns exactly the first position holding `c`.
pub proof fn lemma_find_char(s: Seq<char>, c: char)
    ensures
        match spec_find_char(s, c) {
            Some(i) => 0 <= i < s.len() && s[i] == c && forall|j: int| 0 <= j < i ==> s[j] != c,
            None => forall|j: int| 0 <= j < s.len() ==> s[j] != c,
        },
    decreases s.len(),
{
    if s.len() == 0 {
    } else if s[0] == c {
    } else {
        lemma_find_char(s.skip(1), c);
        match spec_find_char(s.skip(1), c) {
            Some(i) => {
                assert(s.skip(1)[i] == s[i + 1]);
                assert forall|j: int| 0 <= j < i + 1 implies s[j] != c by {
                    if j > 0 {
                        assert(s.skip(1)[j - 1] == s[j]);
                    }
                }
            },
            None => {
                assert forall|j: int| 0 <= j < s.len() implies s[j] != c by {
                    if j > 0 {
                        assert(s.skip(1)[j - 1] == s[j]);
                    }
                }
            },
        }
    }
}

/// Returns the domain of `email`: the text after the first `@`, or `None`
/// when `email` holds no `@`.
pub fn get_domain_name(email: &String) -> (r: Option<String>)
    ensures
        r.deep_view() == spec_domain_of(email@),
{
    let s = email.as_str();
    let n = s.unicode_len();
    let mut i: usize = 0;
    while i < n
        invariant
            n == email@.len(),
            s@ == email@,
            i <= n,
            forall|j: int| 0 <= j < i ==> email@[j] != '@',
        decreases n - i,
    {
        if s.get_char(i) == '@' {
            proof {
                lemma_find_char(email@, '@');
            }
            assert(spec_find_char(email@, '@') == Some(i as int));
            return Some(String::from_str(s.substring_char(i + 1, n)));
        }
        i += 1;
    }
    proof {
        lemma_find_char(email@, '@');
    }
    assert(spec_find_char(email@, '@') is None);
    None
}

/// Flattens one recipient header into its list of address strings, in
/// encounter order: both addresses of a list, the one address of a single
/// header, and nothing for any other shape. An entry whose address field is
/// missing is skipped.
pub fn get_recipients(recipient_header: &RecipientHeader) -> (r: Vec<String>)
    ensures
        r.deep_view() == spec_recipients(*recipient_header),
{
    match recipient_header {
        RecipientHeader::Single(a) => {
            let mut out: Vec<String> = Vec::new();
            match &a.address {
                Some(ad) => {
                    out.push(ad.clone());
                    assert(out.deep_view() =~= spec_recipients(*recipient_header));
                },
                None => {
                    assert(out.deep_view() =~= spec_recipients(*recipient_header));
                },
            }
            out
        },
        RecipientHeader::List(l) => {
            let mut out: Vec<String> = Vec::new();
            let mut i: usize = 0;
            assert(l@.skip(0) =~= l@);
            assert(out.deep_view() + spec_addr_list(l@) =~= spec_addr_list(l@));
            while i < l.len()
                invariant
                    i <= l@.len(),
                    spec_addr_list(l@) == out.deep_view() + spec_addr_list(l@.skip(i as int)),
                decreases l@.len() - i,
            {
                let ghost prev = out.deep_view();
                match &l[i].address {
                    Some(ad) => {
                        out.push(ad.clone());
                        assert(out.deep_view() =~= prev + seq![ad@]);
                    },
                    None => {},
                }
                i += 1;
                proof {
                    assert(l@.skip(i - 1).skip(1) =~= l@.skip(i as int));
                    assert(l@.skip(i - 1)[0] == l@[i - 1]);
                    if l@[i - 1].address is Some {
                        assert(out.deep_view() + spec_addr_list(l@.skip(i as int)) =~= prev + (seq![
                            l@[i - 1].address->0@,
                        ] + spec_addr_list(l@.skip(i as int))));
                    }
                }
            }
            assert(spec_addr_list(l@.skip(l@.len() as int)) =~= Seq::<Seq<char>>::empty());
            assert(out.deep_view() + Seq::<Seq<char>>::empty() =~= out.deep_view());
            out
        },
        RecipientHeader::Other => {
            let out: Vec<String> = Vec::new();
            assert(out.deep_view() =~= Seq::<Seq<char>>::empty());
            out
        },
    }
}

/// Replaces every leftmost, non-overlapping occurrence of `from` in `s` by
/// `to`, scanning left to right and never rescanning replacement text.
pub open spec fn spec_replace(s: Seq<u8>, from: Seq<u8>, to: Seq<u8>) -> Seq<u8>
    decreases s.len(),
{
    if from.len() == 0 || s.len() < from.len() {
        s
    } else if s.subrange(0, from.len() as int) == from {
        to + spec_replace(s.skip(from.len() as int), from, to)
    } else {
        seq![s[0]] + spec_replace(s.skip(1), from, to)
    }
}

/// True when `from` occurs in `s` starting at position `i`.
pub open spec fn occurs_at(s: Seq<u8>, from: Seq<u8>, i: int) -> bool {
    0 <= i && i + from.len() <= s.len() && s.subrange(i, i + from.len()) == from
}

/// The number of leftmost, non-overlapping occurrences of `from` that the
/// scan of `spec_replace` matches in `s`.
pub open spec fn spec_occurrences(s: Seq<u8>, from: Seq<u8>) -> nat
    decreases s.len(),
{
    if from.len() == 0 || s.len() < from.len() {
        0
    } else if s.subrange(0, from.len() as int) == from {
        1 + spec_occurrences(s.skip(from.len() as int), from)
    } else {
        spec_occurrences(s.skip(1), from)
    }
}

/// A `from` pattern that occurs nowhere in the source leaves it unchanged.
pub proof fn lemma_replace_absent(s: Seq<u8>, from: Seq<u8>, to: Seq<u8>)
    requires
        from.len() > 0,
        forall|i: int| !occurs_at(s, from, i),
    ensures
        spec_replace(s, from, to) == s,
    decreases s.len(),
{
    if s.len() < from.len() {
    } else {
        assert(!occurs_at(s, from, 0));
        assert(s.subrange(0, from.len() as int) != from);
        assert forall|i: int| !occurs_at(s.skip(1), from, i) by {
            if 0 <= i && i + from.len() <= s.skip(1).len() {
                assert(s.skip(1).subrange(i, i + from.len()) =~= s.subrange(
                    i + 1,
                    i + 1 + from.len(),
                ));
                assert(!occurs_at(s, from, i + 1));
            }
        }
        lemma_replace_absent(s.skip(1), from, to);
        assert(seq![s[0]] + s.skip(1) =~= s);
    }
}

/// Replacing changes the total length by `(|to| - |from|)` for each
/// occurrence that the scan matches.
pub proof fn lemma_replace_length(s: Seq<u8>, from: Seq<u8>, to: Seq<u8>)
    requires
        from.len() > 0,
    ensures
        spec_replace(s, from, to).len() == s.len() + (to.len() - from.len()) * (spec_occurrences(
            s,
            from,
        ) as int),
    decreases s.len(),
{
    let d = to.len() - from.len();
    if s.len() < from.len() {
        assert(d * (spec_occurrences(s, from) as int) == 0) by (nonlinear_arith)
            requires
                spec_occurrences(s, from) == 0,
        ;
    } else if s.subrange(0, from.len() as int) == from {
        lemma_replace_length(s.skip(from.len() as int), from, to);
        let c = spec_occurrences(s.skip(from.len() as int), from) as int;
        assert(spec_occurrences(s, from) as int == c + 1);
        assert(d * (c + 1) == d * c + d) by (nonlinear_arith);
        assert(spec_replace(s, from, to).len() == to.len() + s.skip(from.len() as int).len() + d
            * c);
    } else {
        lemma_replace_length(s.skip(1), from, to);
        assert(spec_replace(s, from, to).len() == 1 + s.skip(1).len() + d * (spec_occurrences(
            s.skip(1),
            from,
        ) as int));
    }
}

/// A matched occurrence makes the count positive.
pub proof fn lemma_occurrence_counted(s: Seq<u8>, from: Seq<u8>, p: int)
    requires
        from.len() > 0,
        occurs_at(s, from, p),
    ensures
        spec_occurrences(s, from) >= 1,
    decreases p,
{
    if s.subrange(0, from.len() as int) == from {
    } else {
        assert(p != 0);
        assert(s.skip(1).subrange(p - 1, p - 1 + from.len()) =~= s.subrange(p, p + from.len()));
        lemma_occurrence_counted(s.skip(1), from, p - 1);
    }
}

/// Around the first occurrence the replacement splits the source: the prefix
/// before it is kept, `to` is inserted in its place, and the scan resumes
/// past it. In particular `to` stands in the result at the occurrence's
/// offset.
pub proof fn lemma_replace_first(s: Seq<u8>, from: Seq<u8>, to: Seq<u8>, p: int)
    requires
        from.len() > 0,
        occurs_at(s, from, p),
        forall|q: int| 0 <= q < p ==> !occurs_at(s, from, q),
    ensures
        spec_replace(s, from, to) == s.subrange(0, p) + to + spec_replace(
            s.skip(p + from.len()),
            from,
            to,
        ),
        spec_replace(s, from, to).subrange(p, p + to.len()) == to,
    decreases p,
{
    if p == 0 {
        assert(spec_replace(s, from, to) =~= s.subrange(0, 0) + to + spec_replace(
            s.skip(from.len() as int),
            from,
            to,
        ));
    } else {
        assert(!occurs_at(s, from, 0));
        assert(s.subrange(0, from.len() as int) != from);
        assert(s.skip(1).subrange(p - 1, p - 1 + from.len()) =~= s.subrange(p, p + from.len()));
        assert forall|q: int| 0 <= q < p - 1 implies !occurs_at(s.skip(1), from, q) by {
            if q + from.len() <= s.skip(1).len() {
                assert(s.skip(1).subrange(q, q + from.len()) =~= s.subrange(
                    q + 1,
                    q + 1 + from.len(),
                ));
                assert(!occurs_at(s, from, q + 1));
            }
        }
        lemma_replace_first(s.skip(1), from, to, p - 1);
        assert(s.skip(1).skip(p - 1 + from.len()) =~= s.skip(p + from.len()));
        assert(seq![s[0]] + (s.skip(1).subrange(0, p - 1) + to + spec_replace(
            s.skip(p + from.len()),
            from,
            to,
        )) =~= s.subrange(0, p) + to + spec_replace(s.skip(p + from.len()), from, to));
    }
    assert((s.subrange(0, p) + to + spec_replace(s.skip(p + from.len()), from, to)).subrange(
        p,
        p + to.len(),
    ) =~= to);
}

/// Rewriting an occurring pattern into a different token really changes the
/// bytes: the result differs from the source.
pub proof fn lemma_replace_changes(s: Seq<u8>, from: Seq<u8>, to: Seq<u8>, p: int)
    requires
        from.len() > 0,
        occurs_at(s, from, p),
        forall|q: int| 0 <= q < p ==> !occurs_at(s, from, q),
        to != from,
    ensures
        spec_replace(s, from, to) != s,
{
    let r = spec_replace(s, from, to);
    if to.len() == from.len() {
        lemma_replace_first(s, from, to, p);
        if r == s {
            assert(s.subrange(p, p + from.len()) == to);
        }
    } else {
        lemma_replace_length(s, from, to);
        lemma_occurrence_counted(s, from, p);
        let c = spec_occurrences(s, from) as int;
        let d = to.len() - from.len();
        assert(d * c != 0) by (nonlinear_arith)
            requires
                d != 0,
                c >= 1,
        ;
    }
}

fn starts_with_at(source: &[u8], from: &[u8], i: usize) -> (r: bool)
    requires
        i + from@.len() <= source@.len(),
    ensures
        r == occurs_at(source@, from@, i as int),
{
    let n = source.len();
    let mut j: usize = 0;
    while j < from.len()
        invariant
            n == source@.len(),
            i + from@.len() <= n,
            j <= from@.len(),
            forall|k: int| 0 <= k < j ==> source@[i + k] == from@[k],
        decreases from@.len() - j,
    {
        if source[i + j] != from[j] {
            assert(source@.subrange(i as int, i + from@.len())[j as int] != from@[j as int]);
            return false;
        }
        j += 1;
    }
    assert(source@.subrange(i as int, i + from@.len()) =~= from@);
    true
}

fn push_all(dest: &mut Vec<u8>, src: &[u8])
    ensures
        final(dest)@ == old(dest)@ + src@,
{
    let mut j: usize = 0;
    while j < src.len()
        invariant
            j <= src@.len(),
            dest@ == old(dest)@ + src@.subrange(0, j as int),
        decreases src@.len() - j,
    {
        dest.push(src[j]);
        j += 1;
        assert(old(dest)@ + src@.subrange(0, j - 1) + seq![src@[j - 1]] =~= old(dest)@
            + src@.subrange(0, j as int));
    }
    assert(dest@ =~= old(dest)@ + src@);
}

/// Replaces all leftmost, non-overlapping occurrences of `from` in `source`
/// by `to`. After a replacement the scan resumes past the inserted text, so
/// replacement text is never itself rewritten. An empty `from` pattern is
/// excluded: the scan could not advance past a zero-length match.
pub fn replace(source: &[u8], from: &[u8], to: &[u8]) -> (result: Vec<u8>)
    requires
        from@.len() > 0,
    ensures
        result@ == spec_replace(source@, from@, to@),
{
    let mut result: Vec<u8> = Vec::new();
    let mut i: usize = 0;
    assert(source@.skip(0) =~= source@);
    assert(Seq::<u8>::empty() + spec_replace(source@, from@, to@) =~= spec_replace(
        source@,
        from@,
        to@,
    ));
    while from.len() <= source.len() - i
        invariant
            from@.len() > 0,
            i <= source@.len(),
            spec_replace(source@, from@, to@) == result@ + spec_replace(
                source@.skip(i as int),
                from@,
                to@,
            ),
        decreases source@.len() - i,
    {
        if starts_with_at(source, from, i) {
            assert(source@.skip(i as int).subrange(0, from@.len() as int) =~= source@.subrange(
                i as int,
                i + from@.len(),
            ));
            push_all(&mut result, to);
            i += from.len();
            assert(source@.skip((i - from@.len()) as int).skip(from@.len() as int) =~= source@.skip(
                i as int,
            ));
        } else {
            assert(source@.skip(i as int).subrange(0, from@.len() as int) =~= source@.subrange(
                i as int,
                i + from@.len(),
            ));
            result.push(source[i]);
            i += 1;
            assert(source@.skip((i - 1) as int).skip(1) =~= source@.skip(i as int));
            assert(seq![source@[i - 1]] =~= source@.skip((i - 1) as int).subrange(0, 1));
        }
    }
    while i < source.len()
        invariant
            i <= source@.len(),
            spec_replace(source@, from@, to@) == result@ + source@.skip(i as int),
        decreases source@.len() - i,
    {
        result.push(source[i]);
        i += 1;
        assert(result@ + source@.skip(i as int) =~= result@.drop_last() + source@.skip(
            (i - 1) as int,
        ));
    }
    assert(source@.skip(i as int) =~= Seq::<u8>::empty());
    assert(result@ + Seq::<u8>::empty() =~= result@);
    result
}

/// Flattens a message's To, Cc and Bcc headers into one recipient list, in
/// that order.
pub fn flat_recipients(msg: &MailMessage) -> (r: Vec<String>)
    ensures
        r.deep_view() == spec_flat_recipients(*msg),
{
    let mut to_list = get_recipients(&msg.to);
    let mut cc_list = get_recipients(&msg.cc);
    let mut bcc_list = get_recipients(&msg.bcc);
    let ghost t0 = to_list.deep_view();
    let ghost c0 = cc_list.deep_view();
    let ghost b0 = bcc_list.deep_view();
    to_list.append(&mut cc_list);
    assert(to_list.deep_view() =~= t0 + c0);
    to_list.append(&mut bcc_list);
    assert(to_list.deep_view() =~= t0 + c0 + b0);
    to_list
}

/// The prepare pass over one message: each recipient address in turn is
/// replaced, inside the raw bytes, by the login of the next account in
/// round-robin order. The result pairs the rewritten bytes with the index
/// the round-robin cursor reaches. An address that encodes to no bytes is
/// passed over (a replacement there could never terminate), though the
/// cursor still advances.
pub open spec fn spec_rewrite_recipients(
    raw: Seq<u8>,
    emails: Seq<Seq<char>>,
    accounts: Seq<MailAccount>,
    k: int,
) -> (Seq<u8>, int)
    decreases emails.len(),
{
    if emails.len() == 0 || accounts.len() == 0 {
        (raw, k)
    } else {
        let eb = encode_utf8(emails[0]);
        let raw2 = if eb.len() > 0 {
            spec_replace(raw, eb, encode_utf8(accounts[k].user@))
        } else {
            raw
        };
        let k2 = if k + 1 == accounts.len() {
            0int
        } else {
            k + 1
        };
        spec_rewrite_recipients(raw2, emails.skip(1), accounts, k2)
    }
}

/// Rewrites every listed recipient address of `raw` into the login of the
/// next account, cycling through `accounts` from `start`; returns the new
/// bytes and where the cycle stopped.
pub fn rewrite_recipients(
    raw: &Vec<u8>,
    emails: &Vec<String>,
    accounts: &Vec<MailAccount>,
    start: usize,
) -> (r: (Vec<u8>, usize))
    requires
        accounts@.len() > 0,
        start < accounts@.len(),
    ensures
        r.1 < accounts@.len(),
        (r.0@, r.1 as int) == spec_rewrite_recipients(
            raw@,
            emails.deep_view(),
            accounts@,
            start as int,
        ),
{
    let ghost ed = emails.deep_view();
    let alen = accounts.len();
    let mut cur: Vec<u8> = slice_to_vec(raw.as_slice());
    let mut k: usize = start;
    let mut i: usize = 0;
    assert(ed.skip(0) =~= ed);
    while i < emails.len()
        invariant
            i <= emails@.len(),
            ed == emails.deep_view(),
            alen == accounts@.len(),
            alen > 0,
            k < alen,
            spec_rewrite_recipients(raw@, ed, accounts@, start as int)
                == spec_rewrite_recipients(cur@, ed.skip(i as int), accounts@, k as int),
        decreases emails@.len() - i,
    {
        proof {
            assert(ed.skip(i as int).skip(1) =~= ed.skip(i + 1));
            assert(ed.skip(i as int)[0] == ed[i as int]);
            assert(ed[i as int] == emails@[i as int]@);
        }
        let eb = emails[i].as_str().as_bytes_vec();
        if eb.len() > 0 {
            let ub = accounts[k].user.as_str().as_bytes_vec();
            cur = replace(cur.as_slice(), eb.as_slice(), ub.as_slice());
        }
        k = if k + 1 == accounts.len() {
            0
        } else {
            k + 1
        };
        i += 1;
    }
    assert(ed.skip(ed.len() as int) =~= Seq::<Seq<char>>::empty());
    (cur, k)
}

/// The prepare pass over one stored sample file: parse it, flatten its
/// recipients, and rewrite each of them into the login of the next account
/// in round-robin order. Nothing comes back exactly when the bytes do not
/// parse; otherwise the rewritten bytes come with the cursor position for
/// the next file.
pub fn prepare_contents(contents: &Vec<u8>, accounts: &Vec<MailAccount>, cursor: usize) -> (r:
    Option<(Vec<u8>, usize)>)
    requires
        accounts@.len() > 0,
        cursor < accounts@.len(),
    ensures
        r is Some <==> spec_parsed(contents@) is Some,
        r matches Some(p) ==> {
            &&& p.1 < accounts@.len()
            &&& (p.0@, p.1 as int) == spec_rewrite_recipients(
                contents@,
                spec_flat_recipients(spec_parsed(contents@)->0),
                accounts@,
                cursor as int,
            )
        },
{
    match parse_message(contents) {
        Some(m) => {
            let recipients = flat_recipients(&m);
            let (bytes, next) = rewrite_recipients(&m.raw, &recipients, accounts, cursor);
            assert(m == spec_parsed(contents@)->0);
            assert((bytes@, next as int) == spec_rewrite_recipients(
                contents@,
                spec_flat_recipients(m),
                accounts@,
                cursor as int,
            ));
            Some((bytes, next))
        },
        None => None,
    }
}

} // verus!
