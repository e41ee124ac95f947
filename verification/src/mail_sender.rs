//! The per-account SMTP sender's message handling: flatten the recipient
//! headers, keep only same-domain addresses, and rewrite the Message-ID so
//! that every injected copy is externally distinguishable. The network
//! delivery itself stands outside the library; it receives the finished plan.
use crate::message::MailMessage;
use crate::message::spec_flat_recipients;
use crate::utils::flat_recipients;
use crate::utils::get_domain_name;
use crate::utils::lemma_replace_changes;
use crate::utils::occurs_at;
use crate::utils::replace;
use crate::utils::spec_domain_of;
use crate::utils::spec_replace;
use vstd::prelude::*;
use vstd::slice::slice_to_vec;

verus! {

/// The fixed SMTP submission port; TLS is implicit on connect.
pub const SMTP_PORT: u16 = 465;

/// What the sender does with one dequeued message: skip it (no recipient on
/// the account's own domain, or an account login without a domain), or send
/// the rewritten bytes to the filtered recipients.
#[derive(Clone, Debug, PartialEq, Eq)]
pub enum DeliveryPlan {
    Skip,
    Send { recipients: Vec<String>, raw_body: Vec<u8> },
}

/// The sublist of `rs` whose domain (text after the first `@`) equals `d`,
/// in order.
pub open spec fn spec_same_domain(rs: Seq<Seq<char>>, d: Seq<char>) -> Seq<Seq<char>>
    decreases rs.len(),
{
    if rs.len() == 0 {
        Seq::empty()
    } else {
        let rest = spec_same_domain(rs.skip(1), d);
        if spec_domain_of(rs[0]) == Some(d) {
            seq![rs[0]] + rest
        } else {
            rest
        }
    }
}

/// The message bytes with every occurrence of the template's Message-ID
/// replaced by `new_id`; bytes are untouched when the template has no
/// (non-empty) Message-ID to rewrite.
pub open spec fn spec_rewritten_body(m: MailMessage, new_id: Seq<u8>) -> Seq<u8> {
    match m.message_id {
        Some(id) => if id@.len() > 0 {
            spec_replace(m.raw@, id@, new_id)
        } else {
            m.raw@
        },
        None => m.raw@,
    }
}

/// The delivery decision for one message, one account login and one fresh
/// Message-ID: skip when the login has no domain or no recipient shares it;
/// otherwise send the rewritten bytes to exactly the same-domain recipients.
pub open spec fn plan_matches(r: DeliveryPlan, m: MailMessage, user: Seq<char>, new_id: Seq<u8>) -> bool {
    match spec_domain_of(user) {
        None => r == DeliveryPlan::Skip,
        Some(d) => {
            let f = spec_same_domain(spec_flat_recipients(m), d);
            if f.len() == 0 {
                r == DeliveryPlan::Skip
            } else {
                &&& r is Send
                &&& r->recipients.deep_view() == f
                &&& r->raw_body@ == spec_rewritten_body(m, new_id)
            }
        },
    }
}

fn rewrite_body(msg: &MailMessage, new_id: &Vec<u8>) -> (b: Vec<u8>)
    ensures
        b@ == spec_rewritten_body(*msg, new_id@),
{
    match &msg.message_id {
        Some(id) => {
            if id.len() > 0 {
                replace(msg.raw.as_slice(), id.as_slice(), new_id.as_slice())
            } else {
                slice_to_vec(msg.raw.as_slice())
            }
        },
        None => slice_to_vec(msg.raw.as_slice()),
    }
}

/// Computes the delivery decision for one message on behalf of `user`, with
/// `new_id` as the freshly drawn Message-ID replacement.
pub fn plan_delivery(msg: &MailMessage, user: &String, new_id: &Vec<u8>) -> (r: DeliveryPlan)
    ensures
        plan_matches(r, *msg, user@, new_id@),
{
    let to_list = flat_recipients(msg);
    match get_domain_name(user) {
        None => DeliveryPlan::Skip,
        Some(d) => {
            let ghost rs = to_list.deep_view();
            let mut filtered: Vec<String> = Vec::new();
            let mut i: usize = 0;
            assert(rs.skip(0) =~= rs);
            assert(filtered.deep_view() + spec_same_domain(rs, d@) =~= spec_same_domain(rs, d@));
            while i < to_list.len()
                invariant
                    i <= to_list@.len(),
                    rs == to_list.deep_view(),
                    spec_same_domain(rs, d@) == filtered.deep_view() + spec_same_domain(
                        rs.skip(i as int),
                        d@,
                    ),
                decreases to_list@.len() - i,
            {
                let ghost prev = filtered.deep_view();
                let keep = match get_domain_name(&to_list[i]) {
                    Some(di) => di == d,
                    None => false,
                };
                if keep {
                    let e = &to_list[i];
                    filtered.push(e.clone());
                    assert(filtered.deep_view() =~= prev + seq![to_list@[i as int]@]);
                }
                i += 1;
                proof {
                    assert(rs.skip(i - 1).skip(1) =~= rs.skip(i as int));
                    assert(rs.skip(i - 1)[0] == rs[i - 1]);
                    assert(rs[i - 1] == to_list@[i - 1]@);
                    if spec_domain_of(rs[i - 1]) == Some(d@) {
                        assert(filtered.deep_view() + spec_same_domain(rs.skip(i as int), d@)
                            =~= prev + (seq![rs[i - 1]] + spec_same_domain(rs.skip(i as int), d@)));
                    }
                }
            }
            proof {
                assert(rs.skip(rs.len() as int) =~= Seq::<Seq<char>>::empty());
                assert(filtered.deep_view() + Seq::<Seq<char>>::empty() =~= filtered.deep_view());
            }
            if filtered.is_empty() {
                DeliveryPlan::Skip
            } else {
                let raw_body = rewrite_body(msg, new_id);
                DeliveryPlan::Send { recipients: filtered, raw_body }
            }
        },
    }
}

/// Every injected copy is externally distinguishable from its corpus
/// template: when the template's Message-ID occurs in its raw bytes and the
/// freshly drawn identifier differs from it, the rewritten body differs
/// from the template's bytes.
pub proof fn lemma_rewritten_body_differs(m: MailMessage, id: Seq<u8>, new_id: Seq<u8>, p: int)
    requires
        m.message_id matches Some(v) && v@ == id,
        id.len() > 0,
        occurs_at(m.raw@, id, p),
        forall|q: int| 0 <= q < p ==> !occurs_at(m.raw@, id, q),
        new_id != id,
    ensures
        spec_rewritten_body(m, new_id) != m.raw@,
{
    lemma_replace_changes(m.raw@, id, new_id, p);
}

/// An ASCII lower-case hexadecimal digit, as uuid renders its bytes.
pub open spec fn is_lower_hex(b: u8) -> bool {
    (48 <= b && b <= 57) || (97 <= b && b <= 102)
}

/// The byte a hyphenated UUID token holds at position `i`: a hyphen at
/// positions 8, 13, 18 and 23, a lower-case hex digit everywhere else.
pub open spec fn uuid_byte_ok(b: u8, i: int) -> bool {
    if i == 8 || i == 13 || i == 18 || i == 23 {
        b == 45
    } else {
        is_lower_hex(b)
    }
}

/// The shape of a hyphenated UUID token: 36 ASCII bytes in the 8-4-4-4-12
/// hex-and-hyphen form.
pub open spec fn is_uuid_token(s: Seq<u8>) -> bool {
    &&& s.len() == 36
    &&& forall|i: int| 0 <= i < 36 ==> #[trigger] uuid_byte_ok(s[i], i)
}

/// Relies on `uuid::Uuid::new_v4` and its hyphenated `Display` form: a
/// freshly drawn random identifier rendered as 36 ASCII bytes, lower-case
/// hex digits with hyphens at positions 8, 13, 18 and 23.
#[verifier::external_body]
fn fresh_message_id() -> (r: Vec<u8>)
    ensures
        is_uuid_token(r@),
{
    uuid::Uuid::new_v4().to_string().into_bytes()
}

/// One SMTP sender worker: drains the distribution queue on behalf of one
/// account and turns each dequeued message into a delivery plan. Opening the
/// TLS session and sending stand outside the library.
pub struct MailSender {
    pub user: String,
    pub password: String,
    pub smtp_host: String,
}

impl MailSender {
    pub fn new(smtp_host: String, user: String, password: String) -> (r: MailSender)
        ensures
            r.user == user,
            r.password == password,
            r.smtp_host == smtp_host,
    {
        Self { user, password, smtp_host }
    }

    /// Draws a fresh random Message-ID and computes the delivery decision
    /// for one dequeued message: the plan matches the account's login and
    /// the drawn UUID-shaped identifier.
    pub fn prepare_delivery(&self, msg: &MailMessage) -> (r: DeliveryPlan)
        ensures
            exists|id: Seq<u8>|
                #[trigger] plan_matches(r, *msg, self.user@, id) && is_uuid_token(id),
    {
        let new_id = fresh_message_id();
        let r = plan_delivery(msg, &self.user, &new_id);
        proof {
            assert(plan_matches(r, *msg, self.user@, new_id@));
        }
        r
    }
}

} // verus!
