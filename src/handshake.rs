use vstd::prelude::*;
use vstd::string::StrSliceExecFns;
use vstd::string::StringExecFns;

use crate::event::WebsocketClientEvent;

verus! {

/// The token that opens the one control frame on the wire: the server's
/// first frame to a new peer, `"##CLIENT_ID## <id>"`.
pub open spec fn sentinel() -> Seq<char> {
    seq!['#', '#', 'C', 'L', 'I', 'E', 'N', 'T', '_', 'I', 'D', '#', '#']
}

/// The sentinel and the space that follows it.
pub open spec fn handshake_prefix() -> Seq<char> {
    sentinel().push(' ')
}

pub open spec fn digit_char(d: nat) -> char {
    ((d + 48) as u8) as char
}

pub open spec fn is_digit(c: char) -> bool {
    '0' <= c && c <= '9'
}

pub open spec fn digit_value(c: char) -> int {
    (c as u32) as int - 48
}

/// The base-ten text of `n`, without sign or leading zeros.
pub open spec fn decimal(n: nat) -> Seq<char>
    decreases n,
{
    if n < 10 {
        seq![digit_char(n)]
    } else {
        decimal(n / 10).push(digit_char(n % 10))
    }
}

pub open spec fn all_digits(s: Seq<char>) -> bool {
    forall|i: int| 0 <= i < s.len() ==> is_digit(#[trigger] s[i])
}

/// The number that a string of digits writes in base ten.
pub open spec fn digits_value(s: Seq<char>) -> nat
    decreases s.len(),
{
    if s.len() == 0 {
        0
    } else {
        (digits_value(s.drop_last()) * 10 + digit_value(s.last())) as nat
    }
}

/// The text of the handshake frame that gives a peer the id `id`.
pub open spec fn handshake_text(id: u64) -> Seq<char> {
    handshake_prefix() + decimal(id as nat)
}

/// The id that a frame's text carries, if it is a handshake frame: the
/// prefix, then one or more digits whose value fits in 64 bits.
pub open spec fn handshake_id(s: Seq<char>) -> Option<u64> {
    let rest = s.skip(handshake_prefix().len() as int);
    if s.len() > handshake_prefix().len() && s.take(handshake_prefix().len() as int)
        == handshake_prefix() && all_digits(rest) && digits_value(rest) <= u64::MAX {
        Some(digits_value(rest) as u64)
    } else {
        None
    }
}

/// The event that a client-side reader makes of a text frame.
pub open spec fn client_event_of(text: String) -> WebsocketClientEvent {
    match handshake_id(text@) {
        Some(id) => WebsocketClientEvent::OnOpen(id),
        None => WebsocketClientEvent::OnMessage(text),
    }
}

/// Relies on `ToString::to_string` through `u64`'s `Display`: base ten,
/// no sign, no leading zeros.
#[verifier::external_body]
fn decimal_string(n: u64) -> (r: String)
    ensures
        r@ == decimal(n as nat),
{
    n.to_string()
}

/// The handshake frame that a server writes first to the peer it named `id`.
pub fn handshake_frame(id: u64) -> (r: String)
    ensures
        r@ == handshake_text(id),
{
    let prefix = "##CLIENT_ID## ";
    proof {
        reveal_strlit("##CLIENT_ID## ");
        assert(prefix@ =~= handshake_prefix());
    }
    let mut r = String::from_str(prefix);
    let digits = decimal_string(id);
    r.append(digits.as_str());
    r
}

proof fn lemma_digit(d: nat)
    requires
        d < 10,
    ensures
        is_digit(digit_char(d)),
        digit_value(digit_char(d)) == d,
{
    assert(((d + 48) as u8) as char as u32 == d + 48);
}

proof fn lemma_decimal_digits(n: nat)
    ensures
        all_digits(decimal(n)),
        digits_value(decimal(n)) == n,
        decimal(n).len() >= 1,
    decreases n,
{
    lemma_digit(n % 10);
    if n < 10 {
        assert(decimal(n).drop_last() =~= Seq::<char>::empty());
        assert(decimal(n).last() == digit_char(n));
        assert(n % 10 == n);
        assert(digits_value(Seq::<char>::empty()) == 0);
        let s = decimal(n);
        assert(digits_value(s) == digits_value(s.drop_last()) * 10 + digit_value(s.last()));
    } else {
        lemma_decimal_digits(n / 10);
        assert(decimal(n).drop_last() =~= decimal(n / 10));
        assert(decimal(n).last() == digit_char(n % 10));
        assert(n == (n / 10) * 10 + n % 10);
        let s = decimal(n);
        assert(digits_value(s) == digits_value(s.drop_last()) * 10 + digit_value(s.last()));
        assert(digits_value(s.drop_last()) == n / 10);
    }
}

proof fn lemma_prefix_value_le(s: Seq<char>, k: int)
    requires
        all_digits(s),
        0 <= k <= s.len(),
    ensures
        digits_value(s.take(k)) <= digits_value(s),
    decreases s.len() - k,
{
    if k < s.len() {
        lemma_prefix_value_le(s, k + 1);
        assert(s.take(k + 1).drop_last() =~= s.take(k));
        assert(is_digit(s[k]));
    } else {
        assert(s.take(k) =~= s);
    }
}

/// The handshake frame for an id is read back as the opening of a connection
/// with that id, and as nothing else.
pub proof fn lemma_handshake_round_trip(id: u64)
    ensures
        handshake_id(handshake_text(id)) == Some(id),
{
    let s = handshake_text(id);
    lemma_decimal_digits(id as nat);
    assert(s.take(handshake_prefix().len() as int) =~= handshake_prefix());
    assert(s.skip(handshake_prefix().len() as int) =~= decimal(id as nat));
}

/// Reads a text frame on the client side: a handshake frame becomes the
/// opening of the connection with the id it carries, any other text a message.
pub fn classify_client_frame(text: String) -> (r: WebsocketClientEvent)
    ensures
        r == client_event_of(text),
{
    let prefix = "##CLIENT_ID## ";
    proof {
        reveal_strlit("##CLIENT_ID## ");
        assert(prefix@ =~= handshake_prefix());
    }
    let plen: usize = prefix.unicode_len();
    let n: usize = text.as_str().unicode_len();
    if n <= plen {
        return WebsocketClientEvent::OnMessage(text);
    }
    let mut i: usize = 0;
    while i < plen
        invariant
            plen == handshake_prefix().len(),
            prefix@ == handshake_prefix(),
            n == text@.len(),
            n > plen,
            i <= plen,
            forall|j: int| 0 <= j < i ==> text@[j] == handshake_prefix()[j],
        decreases plen - i,
    {
        if text.as_str().get_char(i) != prefix.get_char(i) {
            proof {
                assert(text@.take(plen as int)[i as int] != handshake_prefix()[i as int]);
            }
            return WebsocketClientEvent::OnMessage(text);
        }
        i = i + 1;
    }
    proof {
        assert(text@.take(plen as int) =~= handshake_prefix());
    }
    let ghost rest = text@.skip(plen as int);
    let mut value: u64 = 0;
    let mut k: usize = plen;
    while k < n
        invariant
            plen == handshake_prefix().len(),
            n == text@.len(),
            n > plen,
            plen <= k <= n,
            rest == text@.skip(plen as int),
            all_digits(rest.take(k - plen)),
            value as nat == digits_value(rest.take(k - plen)),
        decreases n - k,
    {
        let c = text.as_str().get_char(k);
        assert(c == rest[k - plen]);
        if !('0' <= c && c <= '9') {
            return WebsocketClientEvent::OnMessage(text);
        }
        let d: u64 = (c as u32 - 48) as u64;
        assert(rest.take(k + 1 - plen).drop_last() =~= rest.take(k - plen));
        assert(all_digits(rest.take(k + 1 - plen)));
        if value > (u64::MAX - d) / 10 {
            proof {
                assert(digits_value(rest.take(k + 1 - plen)) > u64::MAX) by (nonlinear_arith)
                    requires
                        value > (u64::MAX - d) / 10,
                        d <= 9,
                        digits_value(rest.take(k + 1 - plen)) == value * 10 + d,
                ;
                if all_digits(rest) {
                    lemma_prefix_value_le(rest, k + 1 - plen);
                }
            }
            return WebsocketClientEvent::OnMessage(text);
        }
        value = value * 10 + d;
        k = k + 1;
    }
    proof {
        assert(rest.take(n - plen) =~= rest);
    }
    WebsocketClientEvent::OnOpen(value)
}

} // verus!
