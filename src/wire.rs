//! The wire protocol: one plain-text message per TCP connection.
//!
//! ```text
//! REGISTER <MAC>                        worker -> coordinator
//! PING                                  coordinator -> worker
//! MESSAGE <utf8-text>                   coordinator -> worker
//! TIMER <remaining-secs>/<total-secs>   coordinator -> worker
//! ANIMATE <name>                        coordinator -> worker
//! ```
use vstd::prelude::*;
use crate::text::{
    decimal, free_of, hex_byte, is_digit, lemma_decimal_round_trip,
    lemma_split_once_join, parse_decimal, push_decimal, push_hex_byte, same_text,
    spec_parse_decimal, split_once, split_once_at,
};

verus! {

pub open spec fn ping_word() -> Seq<char> {
    seq!['P', 'I', 'N', 'G']
}

pub open spec fn message_word() -> Seq<char> {
    seq!['M', 'E', 'S', 'S', 'A', 'G', 'E']
}

pub open spec fn timer_word() -> Seq<char> {
    seq!['T', 'I', 'M', 'E', 'R']
}

pub open spec fn animate_word() -> Seq<char> {
    seq!['A', 'N', 'I', 'M', 'A', 'T', 'E']
}

pub open spec fn register_word() -> Seq<char> {
    seq!['R', 'E', 'G', 'I', 'S', 'T', 'E', 'R']
}

/// A directive as it travels from the coordinator to a worker.
#[derive(Clone, Debug, PartialEq, Eq)]
pub enum Directive {
    Ping,
    Message(String),
    Timer { remaining: u64, total: u64 },
    Animate(String),
}

/// The mathematical value of a [`Directive`].
pub enum DirectiveView {
    Ping,
    Message(Seq<char>),
    Timer { remaining: u64, total: u64 },
    Animate(Seq<char>),
}

impl View for Directive {
    type V = DirectiveView;

    open spec fn view(&self) -> DirectiveView {
        match self {
            Directive::Ping => DirectiveView::Ping,
            Directive::Message(m) => DirectiveView::Message(m@),
            Directive::Timer { remaining, total } => DirectiveView::Timer {
                remaining: *remaining,
                total: *total,
            },
            Directive::Animate(n) => DirectiveView::Animate(n@),
        }
    }
}

pub open spec fn option_view(d: Option<Directive>) -> Option<DirectiveView> {
    match d {
        Some(d) => Some(d@),
        None => None,
    }
}

/// The text that carries `d`.
pub open spec fn spec_serialize(d: DirectiveView) -> Seq<char> {
    match d {
        DirectiveView::Ping => ping_word(),
        DirectiveView::Message(m) => message_word() + seq![' '] + m,
        DirectiveView::Timer { remaining, total } => timer_word() + seq![' '] + (decimal(
            remaining as nat,
        ) + seq!['/'] + decimal(total as nat)),
        DirectiveView::Animate(n) => animate_word() + seq![' '] + n,
    }
}

/// The `r/t` payload of a timer directive.
pub open spec fn spec_parse_timer(s: Seq<char>) -> Option<DirectiveView> {
    match split_once(s, '/') {
        Some((r, t)) => match (spec_parse_decimal(r), spec_parse_decimal(t)) {
            (Some(remaining), Some(total)) => Some(DirectiveView::Timer { remaining, total }),
            _ => None,
        },
        None => None,
    }
}

/// The directive that the text `s` carries: `PING` alone, or a verb, a
/// single space, and the verb's payload. Anything else carries none.
pub open spec fn spec_parse(s: Seq<char>) -> Option<DirectiveView> {
    if s == ping_word() {
        Some(DirectiveView::Ping)
    } else {
        match split_once(s, ' ') {
            Some((verb, rest)) => if verb == message_word() {
                Some(DirectiveView::Message(rest))
            } else if verb == animate_word() {
                Some(DirectiveView::Animate(rest))
            } else if verb == timer_word() {
                spec_parse_timer(rest)
            } else {
                None
            },
            None => None,
        }
    }
}

proof fn lemma_words_distinct()
    ensures
        free_of(message_word(), ' '),
        free_of(animate_word(), ' '),
        free_of(timer_word(), ' '),
        message_word() != animate_word(),
        message_word() != timer_word(),
        animate_word() != timer_word(),
{
    assert(message_word()[0] != animate_word()[0]);
    assert(message_word().len() != timer_word().len());
    assert(animate_word().len() != timer_word().len());
}

/// Whatever `serialize` writes, `parse` reads back as the same directive, so
/// serializing the parsed directive gives the same text again.
pub proof fn lemma_serialize_parse_round_trip(d: DirectiveView)
    ensures
        spec_parse(spec_serialize(d)) == Some(d),
        spec_serialize(spec_parse(spec_serialize(d))->0) == spec_serialize(d),
{
    lemma_words_distinct();
    let s = spec_serialize(d);
    match d {
        DirectiveView::Ping => {},
        DirectiveView::Message(m) => {
            assert(s.len() != ping_word().len());
            lemma_split_once_join(message_word(), ' ', m);
        },
        DirectiveView::Animate(n) => {
            assert(s.len() != ping_word().len());
            lemma_split_once_join(animate_word(), ' ', n);
        },
        DirectiveView::Timer { remaining, total } => {
            let rest = decimal(remaining as nat) + seq!['/'] + decimal(total as nat);
            assert(s.len() != ping_word().len());
            lemma_split_once_join(timer_word(), ' ', rest);
            lemma_decimal_round_trip(remaining as nat);
            lemma_decimal_round_trip(total as nat);
            let r = decimal(remaining as nat);
            assert forall|i: int| 0 <= i < r.len() implies #[trigger] r[i] != '/' by {
                assert(is_digit(r[i]));
            }
            lemma_split_once_join(r, '/', decimal(total as nat));
            assert(is_digit(r[0]));
            assert(is_digit(decimal(total as nat)[0]));
        },
    }
}

impl Directive {
    /// The text that carries this directive.
    pub fn serialize(&self) -> (r: String)
        ensures
            r@ == spec_serialize(self@),
    {
        match self {
            Directive::Ping => {
                proof {
                    reveal_strlit("PING");
                }
                let r = String::from_str("PING");
                assert(r@ =~= ping_word());
                r
            },
            Directive::Message(m) => {
                proof {
                    reveal_strlit("MESSAGE ");
                }
                let mut r = String::from_str("MESSAGE ");
                assert(r@ =~= message_word() + seq![' ']);
                r.append(m.as_str());
                r
            },
            Directive::Timer { remaining, total } => {
                proof {
                    reveal_strlit("TIMER ");
                    reveal_strlit("/");
                }
                let mut r = String::from_str("TIMER ");
                assert(r@ =~= timer_word() + seq![' ']);
                push_decimal(&mut r, *remaining);
                r.append("/");
                push_decimal(&mut r, *total);
                assert(r@ =~= spec_serialize(self@));
                r
            },
            Directive::Animate(n) => {
                proof {
                    reveal_strlit("ANIMATE ");
                }
                let mut r = String::from_str("ANIMATE ");
                assert(r@ =~= animate_word() + seq![' ']);
                r.append(n.as_str());
                r
            },
        }
    }

    /// The directive that the text `s` carries, if any.
    pub fn parse(s: &str) -> (r: Option<Directive>)
        ensures
            option_view(r) == spec_parse(s@),
    {
        proof {
            reveal_strlit("PING");
            reveal_strlit("MESSAGE");
            reveal_strlit("ANIMATE");
            reveal_strlit("TIMER");
        }
        assert("PING"@ =~= ping_word());
        assert("MESSAGE"@ =~= message_word());
        assert("ANIMATE"@ =~= animate_word());
        assert("TIMER"@ =~= timer_word());
        if same_text(s, "PING") {
            return Some(Directive::Ping);
        }
        match split_once_at(s, ' ') {
            Some((verb, rest)) => {
                if same_text(verb, "MESSAGE") {
                    Some(Directive::Message(rest.to_owned()))
                } else if same_text(verb, "ANIMATE") {
                    Some(Directive::Animate(rest.to_owned()))
                } else if same_text(verb, "TIMER") {
                    match split_once_at(rest, '/') {
                        Some((r, t)) => match (parse_decimal(r), parse_decimal(t)) {
                            (Some(remaining), Some(total)) => Some(
                                Directive::Timer { remaining, total },
                            ),
                            _ => None,
                        },
                        None => None,
                    }
                } else {
                    None
                }
            },
            None => None,
        }
    }
}

/// ASCII whitespace, as `char::is_ascii_whitespace` defines it.
pub open spec fn is_ascii_space(c: char) -> bool {
    c == ' ' || c == '\t' || c == '\n' || c == '\x0C' || c == '\r'
}

/// The words of `s`, where `cur` is the part of a word already read before `s`.
pub open spec fn words_after(s: Seq<char>, cur: Seq<char>) -> Seq<Seq<char>>
    decreases s.len(),
{
    if s.len() == 0 {
        if cur.len() > 0 {
            seq![cur]
        } else {
            Seq::empty()
        }
    } else if is_ascii_space(s[0]) {
        (if cur.len() > 0 {
            seq![cur]
        } else {
            Seq::empty()
        }) + words_after(s.drop_first(), Seq::empty())
    } else {
        words_after(s.drop_first(), cur.push(s[0]))
    }
}

/// The maximal runs of non-whitespace characters of `s`, in order.
pub open spec fn words(s: Seq<char>) -> Seq<Seq<char>> {
    words_after(s, Seq::empty())
}

pub open spec fn string_views(v: Seq<String>) -> Seq<Seq<char>> {
    v.map_values(|w: String| w@)
}

/// The MAC that a registration announces: the second word of the message,
/// when its first word is `REGISTER`.
pub open spec fn spec_parse_register(s: Seq<char>) -> Option<Seq<char>> {
    let w = words(s);
    if w.len() >= 2 && w[0] == register_word() {
        Some(w[1])
    } else {
        None
    }
}

/// The canonical colon form `HH:HH:...` of the bytes `b`.
pub open spec fn mac_text(b: Seq<u8>) -> Seq<char>
    decreases b.len(),
{
    if b.len() == 0 {
        Seq::empty()
    } else if b.len() == 1 {
        hex_byte(b[0])
    } else {
        mac_text(b.drop_last()) + seq![':'] + hex_byte(b.last())
    }
}

/// The words of `s`.
pub fn split_words(s: &str) -> (r: Vec<String>)
    ensures
        string_views(r@) == words(s@),
{
    let n = s.unicode_len();
    let mut out: Vec<String> = Vec::new();
    let mut start: usize = 0;
    let mut i: usize = 0;
    assert(s@.skip(0) =~= s@);
    assert(s@.subrange(0, 0) =~= Seq::<char>::empty());
    assert(string_views(out@) + words(s@) =~= words(s@));
    while i < n
        invariant
            n == s@.len(),
            start <= i <= n,
            words(s@) == string_views(out@) + words_after(
                s@.skip(i as int),
                s@.subrange(start as int, i as int),
            ),
        decreases n - i,
    {
        let c = s.get_char(i);
        let ghost tail = s@.skip(i as int);
        let ghost cur = s@.subrange(start as int, i as int);
        assert(tail[0] == c);
        assert(tail.drop_first() =~= s@.skip(i + 1));
        if c == ' ' || c == '\t' || c == '\n' || c == '\x0C' || c == '\r' {
            if start < i {
                let w = s.substring_char(start, i).to_owned();
                let ghost before = out@;
                out.push(w);
                assert(string_views(out@) =~= string_views(before) + seq![cur]);
            } else {
                assert(string_views(out@) + Seq::<Seq<char>>::empty() =~= string_views(out@));
            }
            start = i + 1;
            assert(s@.subrange(start as int, i + 1) =~= Seq::<char>::empty());
        } else {
            assert(cur.push(c) =~= s@.subrange(start as int, i + 1));
        }
        i = i + 1;
    }
    assert(s@.skip(n as int) =~= Seq::<char>::empty());
    if start < n {
        let w = s.substring_char(start, n).to_owned();
        let ghost before = out@;
        out.push(w);
        assert(string_views(out@) =~= string_views(before) + seq![s@.subrange(start as int, n as int)]);
    } else {
        assert(string_views(out@) + Seq::<Seq<char>>::empty() =~= string_views(out@));
    }
    out
}

/// The MAC that the registration message `s` announces, if it is one.
pub fn parse_register(s: &str) -> (r: Option<String>)
    ensures
        r matches Some(m) ==> spec_parse_register(s@) == Some(m@),
        r is None ==> spec_parse_register(s@) is None,
{
    let w = split_words(s);
    proof {
        reveal_strlit("REGISTER");
    }
    assert("REGISTER"@ =~= register_word());
    if w.len() >= 2 && same_text(w[0].as_str(), "REGISTER") {
        assert(string_views(w@)[0] == w@[0]@);
        assert(string_views(w@)[1] == w@[1]@);
        Some(w[1].clone())
    } else {
        proof {
            if w@.len() >= 2 {
                assert(string_views(w@)[0] == w@[0]@);
            }
        }
        None
    }
}

/// The message with which a worker whose MAC has the bytes `mac` announces itself.
pub fn registration_request(mac: [u8; 6]) -> (r: String)
    ensures
        r@ == register_word() + seq![' '] + mac_text(mac@),
{
    proof {
        reveal_strlit("REGISTER ");
        reveal_strlit(":");
    }
    assert(":"@ =~= seq![':']);
    let mut r = String::from_str("REGISTER ");
    let ghost head = r@;
    assert(head =~= register_word() + seq![' ']);
    let mut i: usize = 0;
    while i < 6
        invariant
            i <= 6,
            mac@.len() == 6,
            head == register_word() + seq![' '],
            r@ == head + mac_text(mac@.take(i as int)),
        decreases 6 - i,
    {
        let ghost before = r@;
        if i > 0 {
            proof {
                reveal_strlit(":");
            }
            r.append(":");
            assert(r@ =~= before + seq![':']);
        } else {
            assert(r@ =~= before);
        }
        let ghost mid = r@;
        push_hex_byte(&mut r, mac[i]);
        assert(r@ == mid + hex_byte(mac@[i as int]));
        proof {
            let t = mac@.take(i + 1);
            assert(t.drop_last() =~= mac@.take(i as int));
            assert(t.last() == mac@[i as int]);
            if i == 0 {
                assert(mac_text(mac@.take(0)) =~= Seq::<char>::empty());
                assert(mac_text(t) == hex_byte(mac@[0]));
                assert(r@ =~= before + hex_byte(mac@[0]));
            } else {
                assert(mac_text(t) == mac_text(mac@.take(i as int)) + seq![':'] + hex_byte(mac@[i as int]));
                assert(r@ =~= before + seq![':'] + hex_byte(mac@[i as int]));
            }
        }
        assert(r@ =~= head + mac_text(mac@.take(i + 1)));
        i = i + 1;
    }
    assert(mac@.take(6) =~= mac@);
    r
}

proof fn lemma_words_after_word(a: Seq<char>, s: Seq<char>, cur: Seq<char>)
    requires
        forall|i: int| 0 <= i < a.len() ==> !is_ascii_space(#[trigger] a[i]),
    ensures
        words_after(a + s, cur) == words_after(s, cur + a),
    decreases a.len(),
{
    if a.len() == 0 {
        assert(a + s =~= s);
        assert(cur + a =~= cur);
    } else {
        let x = a + s;
        assert(x[0] == a[0]);
        assert(x.drop_first() =~= a.drop_first() + s);
        assert forall|i: int| 0 <= i < a.drop_first().len() implies !is_ascii_space(
            #[trigger] a.drop_first()[i],
        ) by {
            assert(a.drop_first()[i] == a[i + 1]);
        }
        lemma_words_after_word(a.drop_first(), s, cur.push(a[0]));
        assert(cur.push(a[0]) + a.drop_first() =~= cur + a);
    }
}

proof fn lemma_words_after_space(s: Seq<char>, cur: Seq<char>)
    requires
        cur.len() > 0,
    ensures
        words_after(seq![' '] + s, cur) == seq![cur] + words_after(s, Seq::empty()),
{
    let x = seq![' '] + s;
    assert(x[0] == ' ');
    assert(x.drop_first() =~= s);
}

proof fn lemma_mac_text_chars(b: Seq<u8>)
    ensures
        forall|i: int| 0 <= i < mac_text(b).len() ==> !is_ascii_space(#[trigger] mac_text(b)[i]),
        b.len() > 0 ==> mac_text(b).len() > 0,
    decreases b.len(),
{
    if b.len() > 1 {
        let init = b.drop_last();
        lemma_mac_text_chars(init);
        let m = mac_text(b);
        let h = hex_byte(b.last());
        assert(m == mac_text(init) + seq![':'] + h);
        assert forall|i: int| 0 <= i < m.len() implies !is_ascii_space(#[trigger] m[i]) by {
            if i < mac_text(init).len() {
                assert(m[i] == mac_text(init)[i]);
            } else if i > mac_text(init).len() {
                assert(m[i] == h[i - mac_text(init).len() - 1]);
            }
        }
    }
}

/// What a worker announces itself with is read back by the coordinator as
/// the worker's MAC in colon form.
pub proof fn lemma_registration_round_trip(mac: Seq<u8>)
    requires
        mac.len() == 6,
    ensures
        spec_parse_register(register_word() + seq![' '] + mac_text(mac)) == Some(mac_text(mac)),
{
    let r = register_word();
    let m = mac_text(mac);
    let e = Seq::<char>::empty();
    lemma_mac_text_chars(mac);
    let x = r + seq![' '] + m;
    assert(x =~= r + (seq![' '] + m));
    lemma_words_after_word(r, seq![' '] + m, e);
    assert(e + r =~= r);
    lemma_words_after_space(m, r);
    lemma_words_after_word(m, e, e);
    assert(m + e =~= m);
    assert(e + m =~= m);
    assert(words_after(e, m) == seq![m]);
    assert(words(x) =~= seq![r, m]);
}

} // verus!
