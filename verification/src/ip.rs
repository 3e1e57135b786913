//! Internet addresses and their textual forms.

use vstd::prelude::*;

use crate::text;
use crate::text::{
    chars_of, find_text, read_hex_digit, read_number, slice_chars, split, write_decimal, CharClass,
};

verus! {

/// An IPv4 address, octet by octet.
#[derive(Clone, Copy, Debug, PartialEq, Eq, Structural)]
pub struct Ipv4Addr {
    pub a: u8,
    pub b: u8,
    pub c: u8,
    pub d: u8,
}

/// An IPv4 or IPv6 address; the latter as its eight 16-bit groups.
#[derive(Clone, Copy, Debug, PartialEq, Eq)]
pub enum IpAddr {
    V4(Ipv4Addr),
    V6([u16; 8]),
}

/// An IPv4 or IPv6 address, the groups of the latter as a sequence.
pub enum IpView {
    V4(Ipv4Addr),
    V6(Seq<u16>),
}

impl View for IpAddr {
    type V = IpView;

    open spec fn view(&self) -> IpView {
        match *self {
            IpAddr::V4(v4) => IpView::V4(v4),
            IpAddr::V6(groups) => IpView::V6(groups@),
        }
    }
}

/// Tells whether two addresses have the same groups.
fn same_groups(a: &[u16; 8], b: &[u16; 8]) -> (r: bool)
    ensures
        r == (a@ == b@),
{
    let mut i: usize = 0;
    while i < 8
        invariant
            i <= 8,
            forall|k: int| 0 <= k < i ==> a@[k] == b@[k],
        decreases 8 - i,
    {
        if a[i] != b[i] {
            return false;
        }
        i += 1;
    }
    proof {
        assert(a@ == b@);
    }
    true
}

impl IpAddr {
    /// Tells whether two addresses are the same.
    pub fn is_same(&self, other: &IpAddr) -> (r: bool)
        ensures
            r == (self@ == other@),
    {
        match (self, other) {
            (IpAddr::V4(a), IpAddr::V4(b)) => *a == *b,
            (IpAddr::V6(a), IpAddr::V6(b)) => same_groups(a, b),
            _ => false,
        }
    }
}

// ---------------------------------------------------------------------------
// IPv4
// ---------------------------------------------------------------------------
/// The dotted decimal form of an address.
pub open spec fn dotted(ip: Ipv4Addr) -> Seq<char> {
    text::decimal(ip.a as nat) + seq!['.'] + text::decimal(ip.b as nat) + seq!['.']
        + text::decimal(ip.c as nat) + seq!['.'] + text::decimal(ip.d as nat)
}

impl Ipv4Addr {
    /// Writes the address in dotted decimal form.
    pub fn to_text(&self) -> (r: String)
        ensures
            r@ == dotted(*self),
    {
        let mut s = write_decimal(self.a as u64);
        s.push('.');
        s.append(write_decimal(self.b as u64).as_str());
        s.push('.');
        s.append(write_decimal(self.c as u64).as_str());
        s.push('.');
        s.append(write_decimal(self.d as u64).as_str());
        proof {
            assert(s@ == dotted(*self));
        }
        s
    }
}

/// One octet of a dotted address: one to three digits without a leading zero.
pub open spec fn octet_of(p: Seq<char>) -> Option<nat> {
    if p.len() <= 3 && (p.len() == 1 || p.len() > 0 && p[0] != '0') {
        text::number_upto(p, 255)
    } else {
        None
    }
}

/// The address that four octets separated by dots stand for.
pub open spec fn ipv4_of(s: Seq<char>) -> Option<Ipv4Addr> {
    let ps = text::pieces(s, CharClass::Only('.'));
    if ps.len() == 4 && octet_of(ps[0]) is Some && octet_of(ps[1]) is Some && octet_of(
        ps[2],
    ) is Some && octet_of(ps[3]) is Some {
        Some(
            Ipv4Addr {
                a: octet_of(ps[0])->0 as u8,
                b: octet_of(ps[1])->0 as u8,
                c: octet_of(ps[2])->0 as u8,
                d: octet_of(ps[3])->0 as u8,
            },
        )
    } else {
        None
    }
}

/// Reads one octet of a dotted address.
fn read_dotted_octet(p: &Vec<char>) -> (r: Option<u8>)
    ensures
        match r {
            Some(v) => octet_of(p@) == Some(v as nat),
            None => octet_of(p@) is None,
        },
{
    if p.len() <= 3 && (p.len() == 1 || (p.len() > 0 && p[0] != '0')) {
        match read_number(p, 255) {
            Some(v) => Some(v as u8),
            None => None,
        }
    } else {
        None
    }
}

/// Reads an IPv4 address in dotted decimal form.
pub fn read_ipv4(s: &Vec<char>) -> (r: Option<Ipv4Addr>)
    ensures
        r == ipv4_of(s@),
{
    let ps = split(s, &CharClass::Only('.'));
    proof {
        assert(text::rows(ps@).len() == ps@.len());
    }
    if ps.len() != 4 {
        return None;
    }
    let ghost view = text::rows(ps@);
    proof {
        assert(view[0] == ps@[0]@ && view[1] == ps@[1]@ && view[2] == ps@[2]@ && view[3]
            == ps@[3]@);
    }
    match (
        read_dotted_octet(&ps[0]),
        read_dotted_octet(&ps[1]),
        read_dotted_octet(&ps[2]),
        read_dotted_octet(&ps[3]),
    ) {
        (Some(a), Some(b), Some(c), Some(d)) => Some(Ipv4Addr { a, b, c, d }),
        _ => None,
    }
}

// ---------------------------------------------------------------------------
// IPv6
// ---------------------------------------------------------------------------
/// The value of a run of hexadecimal digits.
pub open spec fn hex_digits_value(s: Seq<char>) -> Option<nat>
    decreases s.len(),
{
    if s.len() == 0 {
        Some(0)
    } else {
        match (hex_digits_value(s.drop_last()), text::hex_value(s.last())) {
            (Some(high), Some(low)) => Some(16 * high + low),
            _ => None,
        }
    }
}

/// One 16-bit group: one to four hexadecimal digits.
pub open spec fn group_of(p: Seq<char>) -> Option<u16> {
    if 1 <= p.len() <= 4 && hex_digits_value(p) is Some {
        Some(hex_digits_value(p)->0 as u16)
    } else {
        None
    }
}

/// The groups that pieces stand for, one each.
pub open spec fn groups_of(ps: Seq<Seq<char>>) -> Option<Seq<u16>>
    decreases ps.len(),
{
    if ps.len() == 0 {
        Some(Seq::empty())
    } else {
        match (groups_of(ps.drop_last()), group_of(ps.last())) {
            (Some(front), Some(g)) => Some(front.push(g)),
            _ => None,
        }
    }
}

/// The two groups that an embedded IPv4 address stands for.
pub open spec fn embedded(ip: Ipv4Addr) -> Seq<u16> {
    seq![(256 * ip.a + ip.b) as u16, (256 * ip.c + ip.d) as u16]
}

/// The groups of text between colons, whose last piece may be an embedded
/// IPv4 address. Empty text has no groups.
pub open spec fn tail_groups(s: Seq<char>) -> Option<Seq<u16>> {
    let ps = text::pieces(s, CharClass::Only(':'));
    if s.len() == 0 {
        Some(Seq::empty())
    } else {
        match (groups_of(ps.drop_last()), ipv4_of(ps.last())) {
            (Some(front), Some(ip)) => Some(front + embedded(ip)),
            _ => groups_of(ps),
        }
    }
}

/// The groups of text between colons, without an embedded IPv4 address.
/// Empty text has no groups.
pub open spec fn head_groups(s: Seq<char>) -> Option<Seq<u16>> {
    if s.len() == 0 {
        Some(Seq::empty())
    } else {
        groups_of(text::pieces(s, CharClass::Only(':')))
    }
}

/// `n` groups of zero.
pub open spec fn zeros(n: int) -> Seq<u16> {
    Seq::new(n as nat, |i: int| 0u16)
}

/// `at` is where the first double colon of `s` stands.
pub open spec fn first_gap(s: Seq<char>, at: int) -> bool {
    &&& text::occurs_at(s, seq![':', ':'], at)
    &&& forall|k: int| 0 <= k < at ==> !text::occurs_at(s, seq![':', ':'], k)
}

/// The groups of an IPv6 address: eight of them, or fewer with one double
/// colon that stands for one or more groups of zero.
pub open spec fn ipv6_of(s: Seq<char>) -> Option<Seq<u16>> {
    if exists|at: int| first_gap(s, at) {
        let at = choose|at: int| first_gap(s, at);
        match (head_groups(s.take(at)), tail_groups(s.skip(at + 2))) {
            (Some(head), Some(tail)) => if head.len() + tail.len() <= 7 {
                Some(head + zeros(8 - head.len() - tail.len()) + tail)
            } else {
                None
            },
            _ => None,
        }
    } else {
        match tail_groups(s) {
            Some(all) => if all.len() == 8 {
                Some(all)
            } else {
                None
            },
            None => None,
        }
    }
}

/// A few hexadecimal digits stay below a power of sixteen.
proof fn lemma_hex_bound(s: Seq<char>)
    requires
        hex_digits_value(s) is Some,
        s.len() <= 4,
    ensures
        s.len() == 0 ==> hex_digits_value(s)->0 == 0,
        s.len() == 1 ==> hex_digits_value(s)->0 < 16,
        s.len() == 2 ==> hex_digits_value(s)->0 < 256,
        s.len() == 3 ==> hex_digits_value(s)->0 < 4096,
        s.len() == 4 ==> hex_digits_value(s)->0 < 65536,
    decreases s.len(),
{
    if s.len() > 0 {
        lemma_hex_bound(s.drop_last());
    }
}

/// Reads one 16-bit group.
fn read_group(p: &Vec<char>) -> (r: Option<u16>)
    ensures
        r == group_of(p@),
{
    if p.len() == 0 || p.len() > 4 {
        return None;
    }
    let mut total: u32 = 0;
    let mut i: usize = 0;
    while i < p.len()
        invariant
            i <= p.len() <= 4,
            hex_digits_value(p@.take(i as int)) == Some(total as nat),
        decreases p.len() - i,
    {
        proof {
            assert(p@.take(i + 1).drop_last() == p@.take(i as int));
            assert(p@.take(i + 1).last() == p@[i as int]);
            lemma_hex_bound(p@.take(i as int));
        }
        match read_hex_digit(p[i]) {
            Some(v) => {
                total = 16 * total + v as u32;
            },
            None => {
                proof {
                    lemma_hex_prefix(p@, i + 1);
                }
                return None;
            },
        }
        i += 1;
    }
    proof {
        assert(p@.take(p@.len() as int) == p@);
        lemma_hex_bound(p@);
    }
    Some(total as u16)
}

/// What starts hexadecimal digits is hexadecimal digits.
proof fn lemma_hex_prefix(s: Seq<char>, i: int)
    requires
        0 <= i <= s.len(),
        hex_digits_value(s.take(i)) is None,
    ensures
        hex_digits_value(s) is None,
    decreases s.len() - i,
{
    if i < s.len() {
        assert(s.take(i + 1).drop_last() == s.take(i));
        lemma_hex_prefix(s, i + 1);
    } else {
        assert(s.take(i) == s);
    }
}

/// What starts groups is groups.
proof fn lemma_groups_prefix(ps: Seq<Seq<char>>, i: int)
    requires
        0 <= i <= ps.len(),
        groups_of(ps.take(i)) is None,
    ensures
        groups_of(ps) is None,
    decreases ps.len() - i,
{
    if i < ps.len() {
        assert(ps.take(i + 1).drop_last() == ps.take(i));
        lemma_groups_prefix(ps, i + 1);
    } else {
        assert(ps.take(i) == ps);
    }
}

/// Reads the first `n` pieces as one group each.
fn read_groups(ps: &Vec<Vec<char>>, n: usize) -> (r: Option<Vec<u16>>)
    requires
        n <= ps@.len(),
    ensures
        match r {
            Some(g) => groups_of(text::rows(ps@).take(n as int)) == Some(g@),
            None => groups_of(text::rows(ps@).take(n as int)) is None,
        },
{
    let ghost view = text::rows(ps@).take(n as int);
    let mut out: Vec<u16> = Vec::new();
    let mut i: usize = 0;
    proof {
        assert(out@ == Seq::<u16>::empty());
    }
    while i < n
        invariant
            i <= n <= ps@.len(),
            view == text::rows(ps@).take(n as int),
            groups_of(view.take(i as int)) == Some(out@),
        decreases n - i,
    {
        proof {
            assert(view.take(i + 1).drop_last() == view.take(i as int));
            assert(view.take(i + 1).last() == ps@[i as int]@);
        }
        match read_group(&ps[i]) {
            Some(g) => {
                out.push(g);
            },
            None => {
                proof {
                    lemma_groups_prefix(view, i + 1);
                }
                return None;
            },
        }
        i += 1;
    }
    proof {
        assert(view.take(n as int) == view);
    }
    Some(out)
}

/// Reads groups between colons, without an embedded IPv4 address.
fn read_head(s: &Vec<char>) -> (r: Option<Vec<u16>>)
    ensures
        match r {
            Some(g) => head_groups(s@) == Some(g@),
            None => head_groups(s@) is None,
        },
{
    if s.len() == 0 {
        let none: Vec<u16> = Vec::new();
        proof {
            assert(none@ == Seq::<u16>::empty());
        }
        return Some(none);
    }
    let ps = split(s, &CharClass::Only(':'));
    proof {
        let view = text::rows(ps@);
        assert(view.take(ps@.len() as int) == view);
    }
    read_groups(&ps, ps.len())
}

/// Reads groups between colons, whose last piece may be an IPv4 address.
fn read_tail(s: &Vec<char>) -> (r: Option<Vec<u16>>)
    ensures
        match r {
            Some(g) => tail_groups(s@) == Some(g@),
            None => tail_groups(s@) is None,
        },
{
    if s.len() == 0 {
        let none: Vec<u16> = Vec::new();
        proof {
            assert(none@ == Seq::<u16>::empty());
        }
        return Some(none);
    }
    let ps = split(s, &CharClass::Only(':'));
    let n: usize = ps.len();
    proof {
        text::lemma_pieces_nonempty(s@, CharClass::Only(':'));
        let view = text::rows(ps@);
        assert(view.len() == n);
        assert(view.take(n as int) == view);
        assert(view.take(n - 1) == view.drop_last());
        assert(view.last() == ps@[n - 1]@);
    }
    if let Some(mut front) = read_groups(&ps, n - 1) {
        if let Some(ip) = read_ipv4(&ps[n - 1]) {
            let ghost before = front@;
            front.push(256 * ip.a as u16 + ip.b as u16);
            front.push(256 * ip.c as u16 + ip.d as u16);
            proof {
                assert(front@ == before + embedded(ip));
            }
            return Some(front);
        }
    }
    read_groups(&ps, n)
}

/// Reads the eight groups of an IPv6 address.
fn read_ipv6(s: &Vec<char>) -> (r: Option<Vec<u16>>)
    ensures
        match r {
            Some(g) => ipv6_of(s@) == Some(g@) && g@.len() == 8,
            None => ipv6_of(s@) is None,
        },
{
    let n: usize = s.len();
    let gap: Vec<char> = vec![':', ':'];
    proof {
        assert(gap@ == seq![':', ':']);
    }
    match find_text(s, &gap) {
        Some(at) => {
            proof {
                assert(first_gap(s@, at as int));
                let chosen = choose|k: int| first_gap(s@, k);
                assert(first_gap(s@, chosen));
                assert(chosen == at);
                assert(s@.subrange(0, at as int) == s@.take(at as int));
                assert(s@.subrange(at + 2, s@.len() as int) == s@.skip(at + 2));
            }
            let head = read_head(&slice_chars(s, 0, at));
            let tail = read_tail(&slice_chars(s, at + 2, n));
            if let (Some(mut all), Some(mut rest)) = (head, tail) {
                if all.len() <= 7 && rest.len() <= 7 - all.len() {
                    let missing: usize = 8 - all.len() - rest.len();
                    let ghost front = all@;
                    let ghost back = rest@;
                    let mut k: usize = 0;
                    while k < missing
                        invariant
                            k <= missing,
                            all@ == front + zeros(k as int),
                        decreases missing - k,
                    {
                        all.push(0);
                        proof {
                            assert(all@ == front + zeros(k + 1));
                        }
                        k += 1;
                    }
                    all.append(&mut rest);
                    proof {
                        assert(all@ == front + zeros(missing as int) + back);
                    }
                    return Some(all);
                }
            }
            None
        },
        None => {
            proof {
                assert forall|k: int| !first_gap(s@, k) by {
                    assert(!text::occurs_at(s@, gap@, k));
                }
            }
            match read_tail(s) {
                Some(all) => if all.len() == 8 {
                    Some(all)
                } else {
                    None
                },
                None => None,
            }
        },
    }
}

/// The address that text stands for: an IPv4 address in dotted decimal form,
/// else an IPv6 address in hexadecimal groups.
pub open spec fn ip_of(s: Seq<char>) -> Option<IpView> {
    match ipv4_of(s) {
        Some(v4) => Some(IpView::V4(v4)),
        None => match ipv6_of(s) {
            Some(groups) => Some(IpView::V6(groups)),
            None => None,
        },
    }
}

/// Reads an IPv4 or IPv6 address.
pub fn read_ip(s: &Vec<char>) -> (r: Option<IpAddr>)
    ensures
        match r {
            Some(address) => ip_of(s@) == Some(address@),
            None => ip_of(s@) is None,
        },
{
    match read_ipv4(s) {
        Some(v4) => Some(IpAddr::V4(v4)),
        None => match read_ipv6(s) {
            Some(g) => {
                let groups: [u16; 8] = [g[0], g[1], g[2], g[3], g[4], g[5], g[6], g[7]];
                proof {
                    assert(groups@ == g@);
                }
                Some(IpAddr::V6(groups))
            },
            None => None,
        },
    }
}

/// Reads an IPv4 or IPv6 address from text.
pub fn parse_ip(s: &str) -> (r: Option<IpAddr>)
    ensures
        match r {
            Some(address) => ip_of(s@) == Some(address@),
            None => ip_of(s@) is None,
        },
{
    read_ip(&chars_of(s))
}

/// Reading the dotted decimal form of an address gives the address back.
pub proof fn ipv4_text_round_trip(ip: Ipv4Addr)
    ensures
        ipv4_of(dotted(ip)) == Some(ip),
{
    let dot = CharClass::Only('.');
    let a = text::decimal(ip.a as nat);
    let b = text::decimal(ip.b as nat);
    let c = text::decimal(ip.c as nat);
    let d = text::decimal(ip.d as nat);
    lemma_octet_text(ip.a);
    lemma_octet_text(ip.b);
    lemma_octet_text(ip.c);
    lemma_octet_text(ip.d);
    text::lemma_pieces_whole(a, dot);
    text::lemma_pieces_join(a, '.', b, dot);
    text::lemma_pieces_join(a + seq!['.'] + b, '.', c, dot);
    text::lemma_pieces_join(a + seq!['.'] + b + seq!['.'] + c, '.', d, dot);
    assert(text::pieces(dotted(ip), dot) == seq![a, b, c, d]);
}

/// The digits of an octet are read back.
proof fn lemma_octet_text(n: u8)
    ensures
        octet_of(text::decimal(n as nat)) == Some(n as nat),
        forall|i: int|
            0 <= i < text::decimal(n as nat).len() ==> #[trigger] text::decimal(n as nat)[i] != '.',
{
    text::lemma_decimal(n as nat);
    let s = text::decimal(n as nat);
    assert(s.len() <= 3) by {
        reveal_with_fuel(text::decimal, 4);
    }
    assert forall|i: int| 0 <= i < s.len() implies #[trigger] s[i] != '.' by {
        assert(text::is_digit(s[i]));
    }
}

/// Digits without a leading zero are the decimal form of the number that they
/// stand for.
proof fn lemma_digits_are_decimal(p: Seq<char>)
    requires
        text::all_digits(p),
        p.len() >= 1,
        p.len() == 1 || p[0] != '0',
    ensures
        text::decimal(text::digits_value(p)) == p,
        p[0] != '0' ==> text::digits_value(p) > 0,
    decreases p.len(),
{
    let front = p.drop_last();
    let d = p.last();
    assert(text::is_digit(p[p.len() - 1]));
    if p.len() == 1 {
        assert(front == Seq::<char>::empty());
        assert(text::digits_value(front) == 0);
        assert(text::is_digit(p[0]));
        assert(text::decimal(text::digits_value(p)) == p);
    } else {
        assert forall|i: int| 0 <= i < front.len() implies text::is_digit(#[trigger] front[i]) by {
            assert(text::is_digit(p[i]));
        }
        assert(front[0] == p[0]);
        lemma_digits_are_decimal(front);
        let v = text::digits_value(front);
        let k = (d as u32 - 48) as nat;
        assert(k < 10);
        assert(text::digits_value(p) == 10 * v + k);
        assert((10 * v + k) / 10 == v && (10 * v + k) % 10 == k);
        assert(front.push(d) == p);
        assert(text::digit_char(k as int) == d);
        assert(text::decimal(text::digits_value(p)) == p);
    }
}

/// Only the dotted decimal form of an IPv4 address is read as that address.
pub proof fn only_dotted_text_is_an_ipv4_address(s: Seq<char>, ip: Ipv4Addr)
    requires
        ipv4_of(s) == Some(ip),
    ensures
        s == dotted(ip),
{
    let ps = text::pieces(s, CharClass::Only('.'));
    text::splitting_undoes_joining(s, '.');
    lemma_digits_are_decimal(ps[0]);
    lemma_digits_are_decimal(ps[1]);
    lemma_digits_are_decimal(ps[2]);
    lemma_digits_are_decimal(ps[3]);
    let three = ps.drop_last();
    let two = three.drop_last();
    let one = two.drop_last();
    assert(three == seq![ps[0], ps[1], ps[2]] && two == seq![ps[0], ps[1]] && one == seq![ps[0]]);
    assert(text::joined(one, '.') == ps[0]);
    assert(text::joined(two, '.') == ps[0] + seq!['.'] + ps[1]);
    assert(text::joined(three, '.') == ps[0] + seq!['.'] + ps[1] + seq!['.'] + ps[2]);
    assert(s == dotted(ip));
}

/// Two addresses are the same exactly when they are of one kind and agree in
/// every octet or group.
pub proof fn addresses_are_compared_whole(a: IpAddr, b: IpAddr, r: bool)
    requires
        call_ensures(IpAddr::is_same, (&a, &b), r),
    ensures
        r <==> match (a, b) {
            (IpAddr::V4(x), IpAddr::V4(y)) => x.a == y.a && x.b == y.b && x.c == y.c && x.d == y.d,
            (IpAddr::V6(x), IpAddr::V6(y)) => forall|i: int|
                0 <= i < 8 ==> #[trigger] x@[i] == y@[i],
            _ => false,
        },
{
    if let (IpAddr::V6(x), IpAddr::V6(y)) = (a, b) {
        if forall|i: int| 0 <= i < 8 ==> #[trigger] x@[i] == y@[i] {
            assert(x@ == y@);
        }
    }
}

/// The value of a hexadecimal digit; below zero for another character.
pub open spec fn nibble(c: char) -> int {
    if '0' <= c <= '9' {
        c as int - '0' as int
    } else if 'a' <= c <= 'f' {
        c as int - 'a' as int + 10
    } else if 'A' <= c <= 'F' {
        c as int - 'A' as int + 10
    } else {
        -1
    }
}

/// Text of one to four hexadecimal digits stands for a group.
pub open spec fn is_group(p: Seq<char>, g: u16) -> bool {
    &&& 1 <= p.len() <= 4
    &&& forall|i: int| 0 <= i < p.len() ==> nibble(#[trigger] p[i]) >= 0
    &&& p.len() == 1 ==> g == nibble(p[0])
    &&& p.len() == 2 ==> g == 16 * nibble(p[0]) + nibble(p[1])
    &&& p.len() == 3 ==> g == 256 * nibble(p[0]) + 16 * nibble(p[1]) + nibble(p[2])
    &&& p.len() == 4 ==> g == 4096 * nibble(p[0]) + 256 * nibble(p[1]) + 16 * nibble(p[2])
        + nibble(p[3])
}

/// Pieces of text stand for groups, one each.
pub open spec fn stand_for(ps: Seq<Seq<char>>, gs: Seq<u16>) -> bool {
    &&& ps.len() == gs.len()
    &&& forall|i: int| 0 <= i < ps.len() ==> is_group(#[trigger] ps[i], gs[i])
}

/// Pieces of text stand for groups, one each, but for the last piece, which is
/// an IPv4 address that stands for the last two groups.
pub open spec fn stand_for_with(ps: Seq<Seq<char>>, ip: Ipv4Addr, gs: Seq<u16>) -> bool {
    &&& ps.len() >= 1
    &&& gs.len() == ps.len() + 1
    &&& stand_for(ps.drop_last(), gs.take(gs.len() - 2))
    &&& ps.last() == dotted(ip)
    &&& gs[gs.len() - 2] == 256 * ip.a + ip.b
    &&& gs[gs.len() - 1] == 256 * ip.c + ip.d
}

/// Pieces of text stand for groups, with or without an IPv4 address at the end.
pub open spec fn end_stands_for(ps: Seq<Seq<char>>, gs: Seq<u16>) -> bool {
    stand_for(ps, gs) || exists|ip: Ipv4Addr| stand_for_with(ps, ip, gs)
}

/// The value of digits with one more digit behind them.
proof fn lemma_hex_push(front: Seq<char>, c: char)
    ensures
        hex_digits_value(front.push(c)) == if hex_digits_value(front) is Some && nibble(c) >= 0 {
            Some((16 * hex_digits_value(front)->0 + nibble(c)) as nat)
        } else {
            None
        },
        -1 <= nibble(c) < 16,
{
    assert(front.push(c).drop_last() == front);
}

/// The value of digits is that of each at its place.
proof fn lemma_hex_places(p: Seq<char>)
    requires
        1 <= p.len() <= 4,
    ensures
        hex_digits_value(p) is Some <==> forall|i: int|
            0 <= i < p.len() ==> nibble(#[trigger] p[i]) >= 0,
        hex_digits_value(p) is Some ==> 0 <= hex_digits_value(p)->0 < 65536 && is_group(
            p,
            hex_digits_value(p)->0 as u16,
        ),
{
    let none = Seq::<char>::empty();
    assert(hex_digits_value(none) == Some(0nat));
    let one = none.push(p[0]);
    lemma_hex_push(none, p[0]);
    if p.len() == 1 {
        assert(p == one);
    } else {
        let two = one.push(p[1]);
        lemma_hex_push(one, p[1]);
        if p.len() == 2 {
            assert(p == two);
        } else {
            let three = two.push(p[2]);
            lemma_hex_push(two, p[2]);
            if p.len() == 3 {
                assert(p == three);
            } else {
                lemma_hex_push(three, p[3]);
                assert(p == three.push(p[3]));
            }
        }
    }
}

/// A group is what its digits stand for.
proof fn lemma_group(p: Seq<char>, g: u16)
    ensures
        group_of(p) == Some(g) <==> is_group(p, g),
{
    if 1 <= p.len() <= 4 {
        lemma_hex_places(p);
    }
}

/// Pieces are read as groups exactly when each stands for one.
proof fn lemma_groups(ps: Seq<Seq<char>>, gs: Seq<u16>)
    ensures
        groups_of(ps) == Some(gs) <==> stand_for(ps, gs),
    decreases ps.len(),
{
    if ps.len() == 0 {
        assert(gs.len() == 0 ==> gs == Seq::<u16>::empty());
    } else {
        let front = ps.drop_last();
        let n = ps.len() - 1;
        if groups_of(ps) == Some(gs) {
            let before = groups_of(front)->0;
            lemma_groups(front, before);
            lemma_group(ps.last(), group_of(ps.last())->0);
            assert forall|i: int| 0 <= i < ps.len() implies is_group(#[trigger] ps[i], gs[i]) by {
                if i < n {
                    assert(is_group(front[i], before[i]));
                }
            }
        }
        if stand_for(ps, gs) {
            let before = gs.drop_last();
            assert forall|i: int| 0 <= i < front.len() implies is_group(
                #[trigger] front[i],
                before[i],
            ) by {
                assert(is_group(ps[i], gs[i]));
            }
            lemma_groups(front, before);
            assert(is_group(ps[n], gs[n]));
            lemma_group(ps[n], gs[n]);
            assert(before.push(gs[n]) == gs);
        }
    }
}

/// An address in dotted form has a dot in it and no colon.
proof fn lemma_dotted(ip: Ipv4Addr)
    ensures
        dotted(ip).contains('.'),
        !dotted(ip).contains(':'),
        dotted(ip).len() > 0,
{
    let s = dotted(ip);
    text::lemma_decimal(ip.a as nat);
    text::lemma_decimal(ip.b as nat);
    text::lemma_decimal(ip.c as nat);
    text::lemma_decimal(ip.d as nat);
    let a = text::decimal(ip.a as nat);
    let b = text::decimal(ip.b as nat);
    let c = text::decimal(ip.c as nat);
    let d = text::decimal(ip.d as nat);
    assert(s == a + seq!['.'] + b + seq!['.'] + c + seq!['.'] + d);
    assert(s[a.len() as int] == '.');
    assert forall|i: int| 0 <= i < s.len() implies #[trigger] s[i] != ':' by {
        let i1 = i - a.len() - 1;
        let i2 = i1 - b.len() - 1;
        let i3 = i2 - c.len() - 1;
        if i < a.len() {
            assert(text::is_digit(a[i]) && s[i] == a[i]);
        } else if 0 <= i1 < b.len() {
            assert(text::is_digit(b[i1]) && s[i] == b[i1]);
        } else if 0 <= i2 < c.len() {
            assert(text::is_digit(c[i2]) && s[i] == c[i2]);
        } else if 0 <= i3 {
            assert(text::is_digit(d[i3]) && s[i] == d[i3]);
        }
    }
}

/// Pieces that stand for groups are not empty and have no colon in them.
proof fn lemma_pieces_of_groups(ps: Seq<Seq<char>>, gs: Seq<u16>)
    requires
        end_stands_for(ps, gs),
    ensures
        forall|i: int| 0 <= i < ps.len() ==> (#[trigger] ps[i]).len() > 0,
        forall|i: int, k: int|
            0 <= i < ps.len() && 0 <= k < ps[i].len() ==> #[trigger] ps[i][k] != ':',
{
    let n = ps.len() - 1;
    assert forall|i: int| 0 <= i < ps.len() implies (#[trigger] ps[i]).len() > 0 && forall|k: int|
        0 <= k < ps[i].len() ==> #[trigger] ps[i][k] != ':' by {
        if stand_for(ps, gs) {
            assert(is_group(ps[i], gs[i]));
        } else {
            let ip = choose|ip: Ipv4Addr| stand_for_with(ps, ip, gs);
            if i == n {
                lemma_dotted(ip);
                assert forall|k: int| 0 <= k < ps[i].len() implies #[trigger] ps[i][k] != ':' by {
                    assert(dotted(ip).contains(ps[i][k]));
                }
            } else {
                assert(ps.drop_last()[i] == ps[i]);
                assert(is_group(ps.drop_last()[i], gs.take(gs.len() - 2)[i]));
            }
        }
    }
}

/// A double colon leaves an empty piece.
proof fn lemma_gap_leaves_an_empty_piece(s: Seq<char>, at: int)
    requires
        text::occurs_at(s, seq![':', ':'], at),
    ensures
        exists|i: int|
            0 <= i < text::pieces(s, CharClass::Only(':')).len() && (#[trigger] text::pieces(
                s,
                CharClass::Only(':'),
            )[i]).len() == 0,
{
    let class = CharClass::Only(':');
    let x = s.take(at);
    let y = s.skip(at + 2);
    let gap = s.subrange(at, at + 2);
    assert(gap == seq![':', ':']);
    assert(s[at] == gap[0] && s[at + 1] == gap[1]);
    let none = Seq::<char>::empty();
    let rest = none + seq![':'] + y;
    assert(s == x + seq![':'] + rest);
    text::lemma_pieces_add(x, ':', rest, class);
    text::lemma_pieces_add(none, ':', y, class);
    assert(text::pieces(none, class)[0] == none);
    let i = text::pieces(x, class).len() as int;
    assert(text::pieces(s, class)[i] == none);
}

/// A double colon stands at a place.
spec fn gap_at(s: Seq<char>, at: int) -> bool {
    text::occurs_at(s, seq![':', ':'], at)
}

/// What joined pieces are split into, and that they have no double colon.
proof fn lemma_joined_groups(ps: Seq<Seq<char>>, gs: Seq<u16>)
    requires
        ps.len() >= 1,
        end_stands_for(ps, gs),
    ensures
        text::pieces(text::joined(ps, ':'), CharClass::Only(':')) == ps,
        forall|at: int| !#[trigger] gap_at(text::joined(ps, ':'), at),
        text::joined(ps, ':').len() > 0,
        text::joined(ps, ':').last() != ':',
{
    let s = text::joined(ps, ':');
    let n = ps.len() - 1;
    lemma_pieces_of_groups(ps, gs);
    text::joining_is_undone_by_splitting(ps, ':');
    assert forall|at: int| !#[trigger] gap_at(s, at) by {
        if gap_at(s, at) {
            lemma_gap_leaves_an_empty_piece(s, at);
        }
    }
    let last = ps[n];
    assert(last.len() > 0);
    assert(ps[n][last.len() - 1] != ':');
    assert(s.last() == last.last());
}

/// Joined pieces are read as the groups that they stand for.
proof fn lemma_end_is_read(ps: Seq<Seq<char>>, gs: Seq<u16>)
    requires
        ps.len() >= 1,
        end_stands_for(ps, gs),
    ensures
        tail_groups(text::joined(ps, ':')) == Some(gs),
{
    lemma_joined_groups(ps, gs);
    let n = ps.len() - 1;
    if stand_for(ps, gs) {
        lemma_groups(ps, gs);
        assert(is_group(ps[n], gs[n]));
        if ipv4_of(ps.last()) is Some {
            let ip = ipv4_of(ps.last())->0;
            only_dotted_text_is_an_ipv4_address(ps.last(), ip);
            lemma_dotted(ip);
            let k = choose|k: int| 0 <= k < ps[n].len() && ps[n][k] == '.';
            assert(nibble(ps[n][k]) >= 0);
        }
    } else {
        let ip = choose|ip: Ipv4Addr| stand_for_with(ps, ip, gs);
        let front = gs.take(gs.len() - 2);
        lemma_groups(ps.drop_last(), front);
        ipv4_text_round_trip(ip);
        assert(front + embedded(ip) == gs);
    }
}

/// Text with a colon in it is no IPv4 address.
proof fn lemma_colon_is_not_ipv4(s: Seq<char>, at: int)
    requires
        0 <= at < s.len(),
        s[at] == ':',
    ensures
        ipv4_of(s) is None,
{
    if ipv4_of(s) is Some {
        only_dotted_text_is_an_ipv4_address(s, ipv4_of(s)->0);
        lemma_dotted(ipv4_of(s)->0);
        assert(s.contains(s[at]));
    }
}

/// Eight groups with colons between them are an IPv6 address; the last two may
/// be written as an IPv4 address.
pub proof fn eight_groups_are_an_ipv6_address(
    ps: Seq<Seq<char>>,
    gs: Seq<u16>,
    s: &str,
    r: Option<IpAddr>,
)
    requires
        end_stands_for(ps, gs),
        gs.len() == 8,
        s@ == text::joined(ps, ':'),
        call_ensures(parse_ip, (s,), r),
    ensures
        r matches Some(IpAddr::V6(groups)) && groups@ == gs,
{
    lemma_joined_groups(ps, gs);
    lemma_end_is_read(ps, gs);
    assert forall|at: int| !first_gap(s@, at) by {
        assert(!gap_at(s@, at));
    }
    let front = ps.drop_last();
    assert(s@ == text::joined(front, ':') + seq![':'] + ps.last());
    lemma_colon_is_not_ipv4(s@, text::joined(front, ':').len() as int);
}

/// A double colon after joined pieces is the first one.
proof fn lemma_gap_is_first(head: Seq<Seq<char>>, first: Seq<u16>, after: Seq<char>)
    requires
        stand_for(head, first),
    ensures
        first_gap(
            text::joined(head, ':') + seq![':', ':'] + after,
            text::joined(head, ':').len() as int,
        ),
{
    let before = text::joined(head, ':');
    let at = before.len() as int;
    let gap = seq![':', ':'];
    let s = before + gap + after;
    assert(s.subrange(at, at + 2) == gap);
    assert(text::occurs_at(s, gap, at));
    if head.len() > 0 {
        lemma_joined_groups(head, first);
    }
    assert forall|k: int| 0 <= k < at implies !text::occurs_at(s, gap, k) by {
        if text::occurs_at(s, gap, k) {
            let two = s.subrange(k, k + 2);
            assert(two[0] == s[k] && two[1] == s[k + 1]);
            if k + 1 < at {
                assert(before.subrange(k, k + 2) == two);
                assert(gap_at(before, k));
            } else {
                assert(before.last() == s[k]);
            }
        }
    }
}

/// Joined pieces before a double colon are read as their groups.
proof fn lemma_head_is_read(head: Seq<Seq<char>>, first: Seq<u16>)
    requires
        stand_for(head, first),
    ensures
        head_groups(text::joined(head, ':')) == Some(first),
{
    lemma_groups(head, first);
    if head.len() > 0 {
        lemma_joined_groups(head, first);
    }
}

/// Joined pieces after a double colon are read as their groups.
proof fn lemma_rest_is_read(tail: Seq<Seq<char>>, last: Seq<u16>)
    requires
        end_stands_for(tail, last),
    ensures
        tail_groups(text::joined(tail, ':')) == Some(last),
{
    if tail.len() > 0 {
        lemma_end_is_read(tail, last);
    } else {
        assert(last == Seq::<u16>::empty());
    }
}

/// Groups around a gap are filled up with zeros.
proof fn lemma_gap_is_filled(s: Seq<char>, at: int, first: Seq<u16>, last: Seq<u16>)
    requires
        first_gap(s, at),
        head_groups(s.take(at)) == Some(first),
        tail_groups(s.skip(at + 2)) == Some(last),
        first.len() + last.len() <= 7,
    ensures
        ipv6_of(s) == Some(first + zeros(8 - first.len() - last.len()) + last),
        ip_of(s) == Some(IpView::V6(first + zeros(8 - first.len() - last.len()) + last)),
{
    let chosen = choose|k: int| first_gap(s, k);
    assert(first_gap(s, chosen));
    assert(chosen == at) by {
        if chosen < at {
            assert(!text::occurs_at(s, seq![':', ':'], chosen));
        }
        if at < chosen {
            assert(!text::occurs_at(s, seq![':', ':'], at));
        }
    }
    assert(s.subrange(at, at + 2)[0] == s[at]);
    lemma_colon_is_not_ipv4(s, at);
}

/// Joined pieces around a double colon are read as their groups, filled up with
/// zeros.
proof fn lemma_double_colon(
    head: Seq<Seq<char>>,
    first: Seq<u16>,
    tail: Seq<Seq<char>>,
    last: Seq<u16>,
)
    requires
        stand_for(head, first),
        end_stands_for(tail, last),
        first.len() + last.len() <= 7,
    ensures
        ip_of(text::joined(head, ':') + seq![':', ':'] + text::joined(tail, ':')) == Some(
            IpView::V6(first + zeros(8 - first.len() - last.len()) + last),
        ),
{
    let before = text::joined(head, ':');
    let after = text::joined(tail, ':');
    let at = before.len() as int;
    let s = before + seq![':', ':'] + after;
    assert(first_gap(s, at)) by {
        lemma_gap_is_first(head, first, after);
    }
    assert(head_groups(s.take(at)) == Some(first)) by {
        lemma_head_is_read(head, first);
        assert(s.take(at) == before);
    }
    assert(tail_groups(s.skip(at + 2)) == Some(last)) by {
        lemma_rest_is_read(tail, last);
        assert(s.skip(at + 2) == after);
    }
    lemma_gap_is_filled(s, at, first, last);
}

/// A double colon in an IPv6 address stands for as many groups of zero as are
/// missing, at least one.
pub proof fn double_colon_stands_for_zeros(
    head: Seq<Seq<char>>,
    first: Seq<u16>,
    tail: Seq<Seq<char>>,
    last: Seq<u16>,
    gs: Seq<u16>,
    s: &str,
    r: Option<IpAddr>,
)
    requires
        stand_for(head, first),
        end_stands_for(tail, last),
        is_filled(gs, first, last),
        s@ == text::joined(head, ':') + seq![':', ':'] + text::joined(tail, ':'),
        call_ensures(parse_ip, (s,), r),
    ensures
        r matches Some(IpAddr::V6(groups)) && groups@ == gs,
{
    lemma_double_colon(head, first, tail, last);
    lemma_filled(gs, first, last);
}

/// The groups of an address stand on both sides of zeros.
pub open spec fn is_filled(gs: Seq<u16>, first: Seq<u16>, last: Seq<u16>) -> bool {
    &&& gs.len() == 8
    &&& first.len() + last.len() <= 7
    &&& forall|i: int| 0 <= i < first.len() ==> #[trigger] gs[i] == first[i]
    &&& forall|i: int| first.len() <= i < 8 - last.len() ==> #[trigger] gs[i] == 0
    &&& forall|i: int| 8 - last.len() <= i < 8 ==> #[trigger] gs[i] == last[i - (8 - last.len())]
}

/// What an IPv6 address is written as: eight groups, or fewer around one double
/// colon.
pub proof fn only_groups_are_an_ipv6_address(s: &str, r: Option<IpAddr>, gs: Seq<u16>) -> (parts: (
    Seq<Seq<char>>,
    Seq<u16>,
    Seq<Seq<char>>,
    Seq<u16>,
))
    requires
        call_ensures(parse_ip, (s,), r),
        r matches Some(IpAddr::V6(groups)) && groups@ == gs,
    ensures
        ({
            let (head, first, tail, last) = parts;
            ||| {
                &&& s@ == text::joined(tail, ':')
                &&& end_stands_for(tail, last)
                &&& gs == last
                &&& gs.len() == 8
            }
            ||| {
                &&& s@ == text::joined(head, ':') + seq![':', ':'] + text::joined(tail, ':')
                &&& stand_for(head, first)
                &&& end_stands_for(tail, last)
                &&& is_filled(gs, first, last)
            }
        }),
{
    if exists|at: int| first_gap(s@, at) {
        let at = choose|at: int| first_gap(s@, at);
        let before = s@.take(at);
        let after = s@.skip(at + 2);
        let first = head_groups(before)->0;
        let last = tail_groups(after)->0;
        let head = lemma_head_is_groups(before);
        let tail = lemma_tail_is_groups(after);
        let gap = s@.subrange(at, at + 2);
        assert(gap == seq![':', ':']);
        assert(s@ == before + gap + after);
        lemma_filled(gs, first, last);
        (head, first, tail, last)
    } else {
        let tail = lemma_tail_is_groups(s@);
        (Seq::empty(), Seq::empty(), tail, gs)
    }
}

/// Groups with zeros between them fill an address.
proof fn lemma_filled(gs: Seq<u16>, first: Seq<u16>, last: Seq<u16>)
    requires
        first.len() + last.len() <= 7,
    ensures
        gs == first + zeros(8 - first.len() - last.len()) + last <==> is_filled(gs, first, last),
{
    let filled = first + zeros(8 - first.len() - last.len()) + last;
    assert(filled.len() == 8);
    if is_filled(gs, first, last) {
        assert(gs =~= filled);
    }
}

/// The pieces that text before a double colon is made of.
proof fn lemma_head_is_groups(s: Seq<char>) -> (ps: Seq<Seq<char>>)
    requires
        head_groups(s) is Some,
    ensures
        s == text::joined(ps, ':'),
        stand_for(ps, head_groups(s)->0),
{
    if s.len() == 0 {
        assert(s == Seq::<char>::empty());
        Seq::empty()
    } else {
        let ps = text::pieces(s, CharClass::Only(':'));
        text::splitting_undoes_joining(s, ':');
        lemma_groups(ps, head_groups(s)->0);
        ps
    }
}

/// The pieces that text between colons is made of.
proof fn lemma_tail_is_groups(s: Seq<char>) -> (ps: Seq<Seq<char>>)
    requires
        tail_groups(s) is Some,
    ensures
        s == text::joined(ps, ':'),
        end_stands_for(ps, tail_groups(s)->0),
{
    let gs = tail_groups(s)->0;
    let ps = text::pieces(s, CharClass::Only(':'));
    text::splitting_undoes_joining(s, ':');
    if s.len() == 0 {
        assert(s == Seq::<char>::empty());
        Seq::empty()
    } else {
        if groups_of(ps.drop_last()) is Some && ipv4_of(ps.last()) is Some {
            let ip = ipv4_of(ps.last())->0;
            let front = groups_of(ps.drop_last())->0;
            lemma_groups(ps.drop_last(), front);
            only_dotted_text_is_an_ipv4_address(ps.last(), ip);
            assert(gs.take(gs.len() - 2) == front);
            assert(stand_for_with(ps, ip, gs));
        } else {
            lemma_groups(ps, gs);
        }
        ps
    }
}

} // verus!
