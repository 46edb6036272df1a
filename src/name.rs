//! Item file names: `<order-key>-<nonce>`, with an optional `.incoming` or
//! `.consumed` suffix that marks a transient state.
use vstd::prelude::*;

verus! {

/// The characters of a hexadecimal digit, lowest first.
pub open spec fn hex_table() -> Seq<char> {
    seq!['0', '1', '2', '3', '4', '5', '6', '7', '8', '9', 'a', 'b', 'c', 'd', 'e', 'f']
}

/// The lowercase hexadecimal digit for `d`, where `d < 16`.
pub open spec fn hex_char(d: nat) -> char {
    hex_table()[d as int]
}

/// `16` to the power `w`.
pub open spec fn pow16(w: nat) -> nat
    decreases w,
{
    if w == 0 {
        1
    } else {
        16 * pow16((w - 1) as nat)
    }
}

/// The `w` lowest hexadecimal digits of `n`, most significant first and
/// zero-padded.
pub open spec fn hex_digits(n: nat, w: nat) -> Seq<char>
    decreases w,
{
    if w == 0 {
        seq![]
    } else {
        hex_digits(n / 16, (w - 1) as nat).push(hex_char(n % 16))
    }
}

/// The number of digits of an order key.
pub const KEY_WIDTH: usize = 16;

/// The order key of the item written with counter value `seq`: sixteen
/// lowercase hexadecimal digits.
pub open spec fn order_key(seq: u64) -> Seq<char> {
    hex_digits(seq as nat, 16)
}

/// A name that can stand as a visible item file: not empty, with neither a
/// dot nor a slash in it.
pub open spec fn is_plain(s: Seq<char>) -> bool {
    &&& s.len() > 0
    &&& forall|i: int| 0 <= i < s.len() ==> s[i] != '.' && s[i] != '/'
}

/// The name of the item with counter value `seq` and nonce `nonce`.
pub open spec fn item_name(seq: u64, nonce: Seq<char>) -> Seq<char> {
    order_key(seq) + seq!['-'] + nonce
}

pub open spec fn incoming_suffix() -> Seq<char> {
    seq!['.', 'i', 'n', 'c', 'o', 'm', 'i', 'n', 'g']
}

pub open spec fn consumed_suffix() -> Seq<char> {
    seq!['.', 'c', 'o', 'n', 's', 'u', 'm', 'e', 'd']
}

/// The name under which a visible item `v` is written before it is published.
pub open spec fn incoming_of(v: Seq<char>) -> Seq<char> {
    v + incoming_suffix()
}

/// The name under which a visible item `v` waits for acknowledgment once a
/// consumer has taken it.
pub open spec fn consumed_of(v: Seq<char>) -> Seq<char> {
    v + consumed_suffix()
}

/// Whether `s` ends with `suffix`.
pub open spec fn has_suffix(s: Seq<char>, suffix: Seq<char>) -> bool {
    s.len() >= suffix.len() && s.subrange(s.len() - suffix.len(), s.len() as int) == suffix
}

/// `s` without its last `n` characters.
pub open spec fn drop_end(s: Seq<char>, n: nat) -> Seq<char> {
    s.subrange(0, s.len() - n)
}

/// The states in which an item file can be found.
#[derive(PartialEq, Eq, Structural, Clone, Copy, Debug)]
pub enum ItemState {
    /// Published and waiting for a consumer.
    Visible,
    /// Being written; never handed to a consumer.
    Incoming,
    /// Taken by a consumer and waiting for acknowledgment.
    Consumed,
    /// A name that this queue did not write.
    Foreign,
}

pub open spec fn is_visible(s: Seq<char>) -> bool {
    is_plain(s)
}

pub open spec fn is_incoming(s: Seq<char>) -> bool {
    has_suffix(s, incoming_suffix()) && is_plain(drop_end(s, 9))
}

pub open spec fn is_consumed(s: Seq<char>) -> bool {
    has_suffix(s, consumed_suffix()) && is_plain(drop_end(s, 9))
}

/// The visible name that a consumed name `s` goes back to on recovery.
pub open spec fn restored_of(s: Seq<char>) -> Seq<char> {
    drop_end(s, 9)
}

/// The state that the name `s` marks.
pub open spec fn state_of(s: Seq<char>) -> ItemState {
    if is_visible(s) {
        ItemState::Visible
    } else if is_incoming(s) {
        ItemState::Incoming
    } else if is_consumed(s) {
        ItemState::Consumed
    } else {
        ItemState::Foreign
    }
}

/// Strict lexicographic order by code point, the order of Rust's `str`.
pub open spec fn lex_lt(a: Seq<char>, b: Seq<char>) -> bool
    decreases a.len(),
{
    if b.len() == 0 {
        false
    } else if a.len() == 0 {
        true
    } else if a[0] != b[0] {
        (a[0] as u32) < (b[0] as u32)
    } else {
        lex_lt(a.drop_first(), b.drop_first())
    }
}

/// Whether `s` is a plain name.
pub fn is_plain_name(s: &str) -> (r: bool)
    ensures
        r == is_plain(s@),
{
    let n = s.unicode_len();
    if n == 0 {
        return false;
    }
    let mut i: usize = 0;
    while i < n
        invariant
            n == s@.len(),
            i <= n,
            forall|j: int| 0 <= j < i ==> s@[j] != '.' && s@[j] != '/',
        decreases n - i,
    {
        let c = s.get_char(i);
        if c == '.' || c == '/' {
            return false;
        }
        i = i + 1;
    }
    true
}

/// Whether `s` ends with `suffix`.
pub fn ends_with(s: &str, suffix: &str) -> (r: bool)
    ensures
        r == has_suffix(s@, suffix@),
{
    let n = s.unicode_len();
    let m = suffix.unicode_len();
    if n < m {
        return false;
    }
    let mut i: usize = 0;
    while i < m
        invariant
            n == s@.len(),
            m == suffix@.len(),
            m <= n,
            i <= m,
            forall|j: int| 0 <= j < i ==> s@[n - m + j] == suffix@[j],
        decreases m - i,
    {
        if s.get_char(n - m + i) != suffix.get_char(i) {
            assert(s@.subrange(n - m, n as int)[i as int] != suffix@[i as int]);
            return false;
        }
        i = i + 1;
    }
    assert(s@.subrange(n - m, n as int) =~= suffix@);
    true
}

/// The state that the file name `name` marks.
pub fn item_state(name: &str) -> (r: ItemState)
    ensures
        r == state_of(name@),
{
    if is_plain_name(name) {
        return ItemState::Visible;
    }
    let n = name.unicode_len();
    if n < 9 {
        return ItemState::Foreign;
    }
    let base = name.substring_char(0, n - 9);
    let base_plain = is_plain_name(base);
    let inc = ".incoming";
    let con = ".consumed";
    proof {
        reveal_strlit(".incoming");
        reveal_strlit(".consumed");
        assert(inc@ =~= incoming_suffix());
        assert(con@ =~= consumed_suffix());
    }
    if base_plain && ends_with(name, inc) {
        ItemState::Incoming
    } else if base_plain && ends_with(name, con) {
        ItemState::Consumed
    } else {
        ItemState::Foreign
    }
}

/// The hexadecimal digit for `d`, as a one-character string.
fn hex_digit_str(d: u64) -> (r: &'static str)
    requires
        d < 16,
    ensures
        r@ == seq![hex_char(d as nat)],
{
    let table = "0123456789abcdef";
    proof {
        reveal_strlit("0123456789abcdef");
        assert(table@ =~= hex_table());
    }
    let r = table.substring_char(d as usize, d as usize + 1);
    assert(r@ =~= seq![hex_char(d as nat)]);
    r
}

/// The `w` lowest hexadecimal digits of `n`.
fn hex_string(n: u64, w: usize) -> (r: String)
    ensures
        r@ == hex_digits(n as nat, w as nat),
    decreases w,
{
    if w == 0 {
        String::new()
    } else {
        let mut s = hex_string(n / 16, w - 1);
        s.append(hex_digit_str(n % 16));
        s
    }
}

/// The order key of counter value `seq`.
pub fn order_key_string(seq: u64) -> (r: String)
    ensures
        r@ == order_key(seq),
{
    hex_string(seq, KEY_WIDTH)
}

/// The visible name of the item with counter value `seq` and nonce `nonce`,
/// where the nonce is a plain name.
pub fn item_name_string(seq: u64, nonce: &str) -> (r: Option<String>)
    ensures
        r is Some <==> is_plain(nonce@),
        r matches Some(n) ==> n@ == item_name(seq, nonce@) && is_visible(n@),
{
    if !is_plain_name(nonce) {
        return None;
    }
    let mut s = order_key_string(seq);
    let dash = "-";
    proof {
        reveal_strlit("-");
    }
    s.append(dash);
    s.append(nonce);
    proof {
        lemma_order_key_plain(seq);
        assert(s@ =~= item_name(seq, nonce@));
        let n = s@;
        assert forall|i: int| 0 <= i < n.len() implies n[i] != '.' && n[i] != '/' by {
            if i < 16 {
                assert(n[i] == order_key(seq)[i]);
            } else if i > 16 {
                assert(n[i] == nonce@[i - 17]);
            }
        }
    }
    Some(s)
}

/// The name under which the visible item `name` is written before it is
/// published.
pub fn incoming_name(name: &str) -> (r: String)
    ensures
        r@ == incoming_of(name@),
{
    let mut s = String::from_str(name);
    let suffix = ".incoming";
    proof {
        reveal_strlit(".incoming");
        assert(suffix@ =~= incoming_suffix());
    }
    s.append(suffix);
    s
}

/// The name under which the visible item `name` waits for acknowledgment.
pub fn consumed_name(name: &str) -> (r: String)
    ensures
        r@ == consumed_of(name@),
{
    let mut s = String::from_str(name);
    let suffix = ".consumed";
    proof {
        reveal_strlit(".consumed");
        assert(suffix@ =~= consumed_suffix());
    }
    s.append(suffix);
    s
}

/// The visible name that a consumed name goes back to; `None` where `name`
/// does not mark a consumed item.
pub fn restored_name(name: &str) -> (r: Option<String>)
    ensures
        r is Some <==> is_consumed(name@),
        r matches Some(v) ==> v@ == restored_of(name@),
{
    if item_state(name) != ItemState::Consumed {
        return None;
    }
    let n = name.unicode_len();
    let base = name.substring_char(0, n - 9);
    Some(String::from_str(base))
}

/// Whether `a` comes strictly before `b` in lexicographic order.
pub fn lex_less(a: &str, b: &str) -> (r: bool)
    ensures
        r == lex_lt(a@, b@),
{
    let n = a.unicode_len();
    let m = b.unicode_len();
    let mut i: usize = 0;
    assert(a@.skip(0) =~= a@);
    assert(b@.skip(0) =~= b@);
    while i < n && i < m
        invariant
            n == a@.len(),
            m == b@.len(),
            i <= n,
            i <= m,
            lex_lt(a@, b@) == lex_lt(a@.skip(i as int), b@.skip(i as int)),
        decreases n - i,
    {
        let x = a.get_char(i);
        let y = b.get_char(i);
        if x != y {
            return (x as u32) < (y as u32);
        }
        assert(a@.skip(i as int).drop_first() =~= a@.skip(i + 1));
        assert(b@.skip(i as int).drop_first() =~= b@.skip(i + 1));
        i = i + 1;
    }
    i < m
}

proof fn lemma_hex_digits_plain(n: nat, w: nat)
    ensures
        hex_digits(n, w).len() == w,
        forall|i: int| 0 <= i < w ==> hex_table().contains(#[trigger] hex_digits(n, w)[i]),
    decreases w,
{
    if w > 0 {
        lemma_hex_digits_plain(n / 16, (w - 1) as nat);
        let h = hex_digits(n, w);
        let t = hex_digits(n / 16, (w - 1) as nat);
        assert forall|i: int| 0 <= i < w implies hex_table().contains(#[trigger] h[i]) by {
            if i == w - 1 {
                assert(hex_table()[(n % 16) as int] == h[i]);
            } else {
                assert(h[i] == t[i]);
            }
        }
    }
}

proof fn lemma_order_key_plain(seq: u64)
    ensures
        order_key(seq).len() == 16,
        forall|i: int| 0 <= i < 16 ==> order_key(seq)[i] != '.' && order_key(seq)[i] != '/',
{
    lemma_hex_digits_plain(seq as nat, 16);
    assert forall|i: int| 0 <= i < 16 implies order_key(seq)[i] != '.' && order_key(seq)[i] != '/' by {
        assert(hex_table().contains(hex_digits(seq as nat, 16)[i]));
    }
}

/// Lexicographic order is transitive.
pub proof fn lemma_lex_transitive(a: Seq<char>, b: Seq<char>, c: Seq<char>)
    requires
        lex_lt(a, b),
        lex_lt(b, c),
    ensures
        lex_lt(a, c),
    decreases a.len(),
{
    if a.len() > 0 && b.len() > 0 && c.len() > 0 && a[0] == b[0] && b[0] == c[0] {
        lemma_lex_transitive(a.drop_first(), b.drop_first(), c.drop_first());
    }
}

/// Lexicographic order is irreflexive.
pub proof fn lemma_lex_irreflexive(a: Seq<char>)
    ensures
        !lex_lt(a, a),
    decreases a.len(),
{
    if a.len() > 0 {
        lemma_lex_irreflexive(a.drop_first());
    }
}

/// Two sequences that agree but for a last character are ordered by it.
proof fn lemma_lex_last(a: Seq<char>, x: char, y: char)
    requires
        (x as u32) < (y as u32),
    ensures
        lex_lt(a.push(x), a.push(y)),
    decreases a.len(),
{
    if a.len() > 0 {
        assert(a.push(x).drop_first() =~= a.drop_first().push(x));
        assert(a.push(y).drop_first() =~= a.drop_first().push(y));
        lemma_lex_last(a.drop_first(), x, y);
    }
}

/// Whatever follows two ordered prefixes of one length keeps their order.
proof fn lemma_lex_prefix(a: Seq<char>, b: Seq<char>, r1: Seq<char>, r2: Seq<char>)
    requires
        a.len() == b.len(),
        lex_lt(a, b),
    ensures
        lex_lt(a + r1, b + r2),
    decreases a.len(),
{
    assert((a + r1)[0] == a[0]);
    assert((b + r2)[0] == b[0]);
    if a[0] == b[0] {
        assert((a + r1).drop_first() =~= a.drop_first() + r1);
        assert((b + r2).drop_first() =~= b.drop_first() + r2);
        lemma_lex_prefix(a.drop_first(), b.drop_first(), r1, r2);
    }
}

proof fn lemma_hex_table_increasing(i: nat, j: nat)
    requires
        i < j < 16,
    ensures
        (hex_char(i) as u32) < (hex_char(j) as u32),
{
    let t = hex_table();
    assert(t[0] as u32 == 48);
    assert(t[1] as u32 == 49);
    assert(t[2] as u32 == 50);
    assert(t[3] as u32 == 51);
    assert(t[4] as u32 == 52);
    assert(t[5] as u32 == 53);
    assert(t[6] as u32 == 54);
    assert(t[7] as u32 == 55);
    assert(t[8] as u32 == 56);
    assert(t[9] as u32 == 57);
    assert(t[10] as u32 == 97);
    assert(t[11] as u32 == 98);
    assert(t[12] as u32 == 99);
    assert(t[13] as u32 == 100);
    assert(t[14] as u32 == 101);
    assert(t[15] as u32 == 102);
}

/// Fixed-width hexadecimal digits keep the order of the numbers they write.
proof fn lemma_hex_order(n: nat, m: nat, w: nat)
    requires
        n < m < pow16(w),
    ensures
        lex_lt(hex_digits(n, w), hex_digits(m, w)),
    decreases w,
{
    let k = (w - 1) as nat;
    let a = hex_digits(n / 16, k);
    let b = hex_digits(m / 16, k);
    lemma_hex_digits_plain(n / 16, k);
    lemma_hex_digits_plain(m / 16, k);
    assert(m / 16 < pow16(k));
    if n / 16 < m / 16 {
        lemma_hex_order(n / 16, m / 16, k);
        lemma_lex_prefix(a, b, seq![hex_char(n % 16)], seq![hex_char(m % 16)]);
        assert(a.push(hex_char(n % 16)) =~= a + seq![hex_char(n % 16)]);
        assert(b.push(hex_char(m % 16)) =~= b + seq![hex_char(m % 16)]);
    } else {
        lemma_hex_table_increasing(n % 16, m % 16);
        lemma_lex_last(a, hex_char(n % 16), hex_char(m % 16));
    }
}

/// Items written by one handle sort by name in the order in which they were
/// written: the name with the smaller counter value comes first, whatever the
/// nonces.
pub proof fn law_names_follow_counter(a: u64, b: u64, x: Seq<char>, y: Seq<char>)
    requires
        a < b,
    ensures
        lex_lt(item_name(a, x), item_name(b, y)),
{
    assert(pow16(16) == 0x1_0000_0000_0000_0000) by {
        reveal_with_fuel(pow16, 17);
    }
    lemma_hex_order(a as nat, b as nat, 16);
    lemma_hex_digits_plain(a as nat, 16);
    lemma_hex_digits_plain(b as nat, 16);
    lemma_lex_prefix(order_key(a), order_key(b), seq!['-'] + x, seq!['-'] + y);
    assert(item_name(a, x) =~= order_key(a) + (seq!['-'] + x));
    assert(item_name(b, y) =~= order_key(b) + (seq!['-'] + y));
}

} // verus!
