//! Deterministic password generation: a SHA3-512 digest of the inputs seeds a
//! Mersenne Twister, which picks and shuffles the characters.
use vstd::prelude::*;
use vstd::string::*;
use sha3::Digest;
use crate::text::string_of_chars;
use crate::mt19937::{draw, seeded_by_array, shuffled, MtState, MT19937};

verus! {

/// The SHA3-512 digest of the UTF-8 encoding of `text`.
pub uninterp spec fn sha3_512_utf8(text: Seq<char>) -> Seq<u8>;

/// Relies on `sha3::Sha3_512::digest`: the 64-byte SHA3-512 digest of the text's UTF-8 bytes.
#[verifier::external_body]
fn sha3_512_digest(text: &str) -> (r: Vec<u8>)
    ensures
        r@ == sha3_512_utf8(text@),
        r@.len() == 64,
{
    sha3::Sha3_512::digest(text.as_bytes()).to_vec()
}

/// The decimal digits of `n`, without leading zeros.
pub open spec fn decimal(n: nat) -> Seq<char>
    decreases n,
{
    if n < 10 {
        seq![digit_char(n)]
    } else {
        decimal(n / 10).push(digit_char(n % 10))
    }
}

pub open spec fn digit_char(d: nat) -> char {
    (d + 48) as char
}

/// The little-endian word made of bytes `4i .. 4i+4` of `b`.
pub open spec fn le_word(b: Seq<u8>, i: int) -> u32 {
    (b[4 * i] as int + 256 * b[4 * i + 1] as int + 65536 * b[4 * i + 2] as int + 16777216 * b[4 * i + 3] as int) as u32
}

/// The bytes of `b` read as little-endian words.
pub open spec fn le_words(b: Seq<u8>) -> Seq<u32> {
    Seq::new(b.len() / 4, |i: int| le_word(b, i))
}

/// The characters `first ..= first + n - 1`.
pub open spec fn char_run(first: char, n: nat) -> Seq<char> {
    Seq::new(n, |i: int| (first as int + i) as char)
}

/// `n` items drawn from `set`, one draw each, and the state after.
pub open spec fn picks(s: MtState, set: Seq<char>, n: nat) -> (Seq<char>, MtState)
    decreases n,
{
    if n == 0 {
        (seq![], s)
    } else {
        let (cs, s1) = picks(s, set, (n - 1) as nat);
        let (r, s2) = draw(s1);
        (cs.push(set[(r % (set.len() as u32)) as int]), s2)
    }
}

/// One item drawn from `set`.
pub open spec fn pick(s: MtState, set: Seq<char>) -> (char, MtState) {
    let (r, s2) = draw(s);
    (set[(r % (set.len() as u32)) as int], s2)
}

/// The password drawn from generator state `s`: a digit if `number`, an
/// upper-case letter if `uppercase`, a symbol, then the rest from every allowed
/// class, all shuffled.
pub open spec fn drawn_password(s: MtState, digits: nat, uppercase: bool, number: bool, symbols: Seq<char>) -> Seq<char> {
    let lower = char_run('a', 26);
    let nums = char_run('0', 10);
    let uppers = char_run('A', 26);
    let (r1, s1, set1, d1) = if number {
        let (c, s1) = pick(s, nums);
        (seq![c], s1, lower + nums, digits - 1)
    } else {
        (seq![], s, lower, digits as int)
    };
    let (r2, s2, set2, d2) = if uppercase {
        let (c, s2) = pick(s1, uppers);
        (r1.push(c), s2, set1 + uppers, d1 - 1)
    } else {
        (r1, s1, set1, d1)
    };
    let (c3, s3) = pick(s2, symbols);
    let r3 = r2.push(c3);
    let set3 = set2 + symbols;
    let (rest, s4) = picks(s3, set3, (d2 - 1) as nat);
    let all = r3 + rest;
    shuffled(all, s4, (all.len() - 1) as nat).0
}

/// The text whose digest seeds the generator.
pub open spec fn seed_text(auth: Seq<char>, target: Seq<char>, digits: u32) -> Seq<char> {
    auth + target + decimal(digits as nat) + salt()
}

/// The salt appended to every seed text.
pub open spec fn salt() -> Seq<char> {
    "don't \u{200b}crack \u{200b}this!\u{1f631}"@
}

/// The decimal digits of `n`.
pub fn decimal_string(n: u32) -> (r: String)
    ensures
        r@ == decimal(n as nat),
{
    let mut digits: Vec<char> = Vec::new();
    let mut m = n;
    loop
        invariant_except_break
            decimal(n as nat) == decimal(m as nat) + digits@,
        ensures
            decimal(n as nat) == digits@,
        decreases m,
    {
        let d = m % 10;
        let c = ((d + 48) as u8) as char;
        assert(c == digit_char(d as nat));
        let ghost before = digits@;
        digits.insert(0, c);
        assert(digits@ =~= seq![c] + before);
        if m < 10 {
            assert(decimal(m as nat) == seq![c]);
            break;
        }
        proof {
            assert(decimal(m as nat) == decimal((m / 10) as nat).push(c));
            assert(decimal((m / 10) as nat) + (seq![c] + before) =~= decimal((m / 10) as nat).push(c) + before);
        }
        m = m / 10;
    }
    string_of_chars(digits.as_slice())
}

pub open spec fn is_digit(c: char) -> bool {
    '0' <= c && c <= '9'
}

pub open spec fn is_upper(c: char) -> bool {
    'A' <= c && c <= 'Z'
}

/// A character a password may hold: a lower-case letter, a digit when `number`,
/// an upper-case letter when `uppercase`, or one of `symbols`.
pub open spec fn allowed(c: char, uppercase: bool, number: bool, symbols: Seq<char>) -> bool {
    ('a' <= c && c <= 'z') || (number && is_digit(c)) || (uppercase && is_upper(c)) || symbols.contains(c)
}

/// `p` has `digits` allowed characters, among them a digit when `number`, an
/// upper-case letter when `uppercase`, and a symbol.
pub open spec fn shaped(p: Seq<char>, digits: nat, uppercase: bool, number: bool, symbols: Seq<char>) -> bool {
    &&& p.len() == digits
    &&& forall|i: int| 0 <= i < p.len() ==> allowed(#[trigger] p[i], uppercase, number, symbols)
    &&& number ==> exists|i: int| 0 <= i < p.len() && is_digit(#[trigger] p[i])
    &&& uppercase ==> exists|i: int| 0 <= i < p.len() && is_upper(#[trigger] p[i])
    &&& exists|i: int| 0 <= i < p.len() && symbols.contains(#[trigger] p[i])
}

pub proof fn lemma_picks_from(s: MtState, set: Seq<char>, n: nat)
    requires
        0 < set.len() <= u32::MAX,
    ensures
        picks(s, set, n).0.len() == n,
        forall|i: int| 0 <= i < n ==> set.contains(#[trigger] picks(s, set, n).0[i]),
    decreases n,
{
    if n > 0 {
        lemma_picks_from(s, set, (n - 1) as nat);
        let (cs, s1) = picks(s, set, (n - 1) as nat);
        let (r, _) = draw(s1);
        let k = (r % (set.len() as u32)) as int;
        assert(0 <= k < set.len());
        assert(set.contains(set[k]));
        assert forall|i: int| 0 <= i < n implies set.contains(#[trigger] picks(s, set, n).0[i]) by {
            if i < n - 1 {
                assert(picks(s, set, n).0[i] == cs[i]);
            }
        }
    }
}


/// Reordering a password keeps its shape.
pub proof fn lemma_shuffle_keeps_shape(a: Seq<char>, b: Seq<char>, digits: nat, uppercase: bool, number: bool, symbols: Seq<char>)
    requires
        a.to_multiset() == b.to_multiset(),
        a.len() == digits,
        forall|i: int| 0 <= i < a.len() ==> allowed(#[trigger] a[i], uppercase, number, symbols),
        number ==> exists|i: int| 0 <= i < a.len() && is_digit(#[trigger] a[i]),
        uppercase ==> exists|i: int| 0 <= i < a.len() && is_upper(#[trigger] a[i]),
        exists|i: int| 0 <= i < a.len() && symbols.contains(#[trigger] a[i]),
    ensures
        shaped(b, digits, uppercase, number, symbols),
{
    broadcast use vstd::seq_lib::group_to_multiset_ensures;

    assert(b.len() == a.to_multiset().len());
    assert forall|i: int| 0 <= i < b.len() implies allowed(#[trigger] b[i], uppercase, number, symbols) by {
        assert(b.contains(b[i]));
        vstd::seq_lib::to_multiset_contains(b, b[i]);
        vstd::seq_lib::to_multiset_contains(a, b[i]);
        assert(a.contains(b[i]));
        let j = choose|j: int| 0 <= j < a.len() && a[j] == b[i];
        assert(allowed(a[j], uppercase, number, symbols));
    }
    if number {
        let i = choose|i: int| 0 <= i < a.len() && is_digit(#[trigger] a[i]);
        assert(a.contains(a[i]));
        vstd::seq_lib::to_multiset_contains(a, a[i]);
        vstd::seq_lib::to_multiset_contains(b, a[i]);
        assert(b.contains(a[i]));
    }
    if uppercase {
        let i = choose|i: int| 0 <= i < a.len() && is_upper(#[trigger] a[i]);
        assert(a.contains(a[i]));
        vstd::seq_lib::to_multiset_contains(a, a[i]);
        vstd::seq_lib::to_multiset_contains(b, a[i]);
        assert(b.contains(a[i]));
    }
    let i = choose|i: int| 0 <= i < a.len() && symbols.contains(#[trigger] a[i]);
    assert(a.contains(a[i]));
    vstd::seq_lib::to_multiset_contains(a, a[i]);
    vstd::seq_lib::to_multiset_contains(b, a[i]);
    assert(b.contains(a[i]));
}

/// The generator seeded from the words of a 64-byte digest.
fn rng_with_seed(hashed: &[u8]) -> (r: MT19937)
    requires
        hashed@.len() == 64,
    ensures
        r.wf(),
        r@ == (MtState { mt: seeded_by_array(le_words(hashed@)), mti: 0 }),
{
    let mut result: Vec<u32> = Vec::new();
    let mut i: usize = 4;
    while i <= hashed.len()
        invariant
            hashed@.len() == 64,
            4 <= i <= 68,
            i % 4 == 0,
            result@.len() == i / 4 - 1,
            forall|k: int| 0 <= k < result@.len() ==> result@[k] == le_word(hashed@, k),
        decreases 68 - i,
    {
        let b0 = hashed[i - 4] as u32;
        let b1 = hashed[i - 3] as u32;
        let b2 = hashed[i - 2] as u32;
        let b3 = hashed[i - 1] as u32;
        let u = b0 + 256 * b1 + 65536 * b2 + 16777216 * b3;
        result.push(u);
        i = i + 4;
    }
    assert(result@ =~= le_words(hashed@));
    MT19937::new_with_slice(result.as_slice())
}

/// The password of `digits` characters drawn from a generator seeded with the
/// 64-byte `digest` (none when `digits < 6`).
pub fn passwd_from_digest(digest: &[u8], digits: u32, uppercase: bool, number: bool, symbols: &[char]) -> (r: String)
    requires
        digest@.len() == 64,
        0 < symbols@.len() <= u32::MAX - 62,
    ensures
        digits < 6 ==> r@.len() == 0,
        digits >= 6 ==> shaped(r@, digits as nat, uppercase, number, symbols@),
        digits >= 6 ==> r@ == drawn_password(
            MtState { mt: seeded_by_array(le_words(digest@)), mti: 0 },
            digits as nat,
            uppercase,
            number,
            symbols@,
        ),
{
    let mut rng = rng_with_seed(digest);
    if digits < 6 {
        return String::new();
    }
    let ghost s0 = rng@;
    let mut left = digits;
    let mut charset = char_run_vec(97, 26);
    proof {
        assert forall|j: int| 0 <= j < charset@.len() implies allowed(#[trigger] charset@[j], uppercase, number, symbols@) by {
            assert('a' <= charset@[j] && charset@[j] <= 'z');
        }
    }
    let mut result: Vec<char> = Vec::new();
    let ghost mut digit_at: int = 0;
    let ghost mut upper_at: int = 0;
    if number {
        let mut tmp = char_run_vec(48, 10);
        let ghost before = charset@;
        let d = rng.choice(tmp.as_slice());
        proof {
            let k = (draw(s0).0 % (tmp@.len() as u32)) as int;
            assert(0 <= k < 10);
            assert(is_digit(tmp@[k]));
        }
        result.push(d);
        proof {
            digit_at = result@.len() - 1;
        }
        charset.append(&mut tmp);
        proof {
            assert forall|j: int| 0 <= j < charset@.len() implies allowed(#[trigger] charset@[j], uppercase, number, symbols@) by {
                if j < before.len() {
                    assert(charset@[j] == before[j]);
                } else {
                    assert(is_digit(charset@[j]));
                }
            }
        }
        left = left - 1;
    }
    if uppercase {
        let mut tmp = char_run_vec(65, 26);
        let ghost before = charset@;
        let ghost st = rng@;
        let u = rng.choice(tmp.as_slice());
        proof {
            let k = (draw(st).0 % (tmp@.len() as u32)) as int;
            assert(0 <= k < 26);
            assert(is_upper(tmp@[k]));
        }
        proof {
            if number {
                assert(result@.push(u)[digit_at] == result@[digit_at]);
            }
        }
        result.push(u);
        proof {
            upper_at = result@.len() - 1;
        }
        charset.append(&mut tmp);
        proof {
            assert forall|j: int| 0 <= j < charset@.len() implies allowed(#[trigger] charset@[j], uppercase, number, symbols@) by {
                if j < before.len() {
                    assert(charset@[j] == before[j]);
                } else {
                    assert(is_upper(charset@[j]));
                }
            }
        }
        left = left - 1;
    }
    let ghost sb = rng@;
    let sym = rng.choice(symbols);
    proof {
        let k = (draw(sb).0 % (symbols@.len() as u32)) as int;
        assert(0 <= k < symbols@.len());
        assert(symbols@.contains(symbols@[k]));
    }
    proof {
        if number {
            assert(result@.push(sym)[digit_at] == result@[digit_at]);
        }
        if uppercase {
            assert(result@.push(sym)[upper_at] == result@[upper_at]);
        }
    }
    result.push(sym);
    let ghost sym_at = result@.len() - 1;
    assert(number ==> 0 <= digit_at < result@.len() && is_digit(result@[digit_at]));
    assert(uppercase ==> 0 <= upper_at < result@.len() && is_upper(result@[upper_at]));
    assert(symbols@.contains(result@[sym_at]));
    let mut k: usize = 0;
    let ghost set2 = charset@;
    assert(set2.len() <= 62);
    while k < symbols.len()
        invariant
            k <= symbols@.len(),
            charset@ == set2 + symbols@.subrange(0, k as int),
        decreases symbols@.len() - k,
    {
        charset.push(symbols[k]);
        k = k + 1;
        assert(charset@ =~= set2 + symbols@.subrange(0, k as int));
    }
    assert(symbols@.subrange(0, symbols@.len() as int) =~= symbols@);
    proof {
        assert forall|j: int| 0 <= j < charset@.len() implies allowed(#[trigger] charset@[j], uppercase, number, symbols@) by {
            if j < set2.len() {
                assert(charset@[j] == set2[j]);
            } else {
                assert(charset@[j] == symbols@[j - set2.len()]);
            }
        }
    }
    left = left - 1;
    let ghost r3 = result@;
    let ghost s3 = rng@;
    let mut n: u32 = 0;
    while n < left
        invariant
            rng.wf(),
            n <= left,
            0 < charset@.len() <= u32::MAX,
            result@.len() == r3.len() + n,
            r3.len() <= 3,
            0 <= sym_at < r3.len() && symbols@.contains(r3[sym_at]),
            number ==> 0 <= digit_at < r3.len() && is_digit(r3[digit_at]),
            uppercase ==> 0 <= upper_at < r3.len() && is_upper(r3[upper_at]),
            r3.len() + left == digits,
            result@ == r3 + picks(s3, charset@, n as nat).0,
            rng@ == picks(s3, charset@, n as nat).1,
        decreases left - n,
    {
        let c = rng.choice(charset.as_slice());
        result.push(c);
        n = n + 1;
        assert(result@ =~= r3 + picks(s3, charset@, n as nat).0);
    }
    let ghost before = result@;
    proof {
        lemma_picks_from(s3, charset@, left as nat);
        let ps = picks(s3, charset@, left as nat).0;
        assert(before.len() == digits);
        assert(before[sym_at] == r3[sym_at]);
        if number {
            assert(before[digit_at] == r3[digit_at]);
        }
        if uppercase {
            assert(before[upper_at] == r3[upper_at]);
        }
        assert forall|i: int| 0 <= i < before.len() implies allowed(#[trigger] before[i], uppercase, number, symbols@) by {
            if i >= r3.len() {
                assert(before[i] == ps[i - r3.len()]);
                assert(charset@.contains(ps[i - r3.len()]));
            } else {
                assert(before[i] == r3[i]);
            }
        }
    }
    rng.shuffle(result.as_mut_slice());
    proof {
        lemma_shuffle_keeps_shape(before, result@, digits as nat, uppercase, number, symbols@);
    }
    string_of_chars(result.as_slice())
}

/// The password drawn for the seed text `seed` (see [`passwd_from_digest`]).
pub fn _gen_passwd(seed: &str, digits: u32, uppercase: bool, number: bool, symbols: &[char]) -> (r: String)
    requires
        0 < symbols@.len() <= u32::MAX - 62,
    ensures
        digits < 6 ==> r@.len() == 0,
        digits >= 6 ==> shaped(r@, digits as nat, uppercase, number, symbols@),
        digits >= 6 ==> r@ == drawn_password(
            MtState { mt: seeded_by_array(le_words(sha3_512_utf8(seed@))), mti: 0 },
            digits as nat,
            uppercase,
            number,
            symbols@,
        ),
{
    let hashed = sha3_512_digest(seed);
    passwd_from_digest(hashed.as_slice(), digits, uppercase, number, symbols)
}

fn char_run_vec(first: u8, n: u8) -> (r: Vec<char>)
    requires
        first as int + n as int <= 128,
    ensures
        r@ == char_run(first as char, n as nat),
{
    let mut v: Vec<char> = Vec::new();
    let mut i: u8 = 0;
    while i < n
        invariant
            i <= n,
            first as int + n as int <= 128,
            v@ == char_run(first as char, i as nat),
        decreases n - i,
    {
        v.push((first + i) as char);
        i = i + 1;
        assert(v@ =~= char_run(first as char, i as nat));
    }
    v
}

/// The password for `auth` at `target`, of `digits` characters, with a digit
/// and an upper-case letter when asked, and at least one of `symbols`.
pub fn gen_passwd(auth: &str, target: &str, digits: u32, uppercase: bool, number: bool, symbols: &[char]) -> (r: String)
    requires
        0 < symbols@.len() <= u32::MAX - 62,
    ensures
        digits < 6 ==> r@.len() == 0,
        digits >= 6 ==> shaped(r@, digits as nat, uppercase, number, symbols@),
        digits >= 6 ==> r@ == drawn_password(
            MtState { mt: seeded_by_array(le_words(sha3_512_utf8(seed_text(auth@, target@, digits)))), mti: 0 },
            digits as nat,
            uppercase,
            number,
            symbols@,
        ),
{
    let mut seed = String::new();
    seed.append(auth);
    seed.append(target);
    seed.append(decimal_string(digits).as_str());
    seed.append("don't \u{200b}crack \u{200b}this!\u{1f631}");
    proof {
        assert(seed@ =~= seed_text(auth@, target@, digits));
    }
    _gen_passwd(seed.as_str(), digits, uppercase, number, symbols)
}

} // verus!
