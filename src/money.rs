//! Amounts of money written out in Chinese financial numerals.
use vstd::prelude::*;
use vstd::string::*;
use std::collections::HashMap;

verus! {

/// Relies on `HashMap::get`: the text stored under `c`, if any.
#[verifier::external_body]
fn lookup_name<'a>(transer: &HashMap<char, &'a str>, c: char) -> (r: Option<&'a str>)
    ensures
        r == (if transer@.contains_key(c) { Some(transer@[c]) } else { None::<&'a str> }),
{
    transer.get(&c).copied()
}

/// The name of digit `c` under `transer`, or `"?"` when it has none.
fn digit_name<'a>(transer: &HashMap<char, &'a str>, c: char) -> (r: &'a str)
    ensures
        r@ == name_of(transer@, c),
{
    match lookup_name(transer, c) {
        Some(name) => name,
        None => "?",
    }
}

/// Relies on `HashMap::insert`: afterwards `c` maps to `name`.
#[verifier::external_body]
fn insert_name<'a>(transer: &mut HashMap<char, &'a str>, c: char, name: &'a str)
    ensures
        final(transer)@ == old(transer)@.insert(c, name),
{
    transer.insert(c, name);
}

/// The name of digit `c` under `transer`.
pub open spec fn name_of(transer: Map<char, &str>, c: char) -> Seq<char> {
    if transer.contains_key(c) { transer[c]@ } else { "?"@ }
}

/// The last four digits of `s` (fewer, padded with `'0'` in front, when `s` is shorter).
pub open spec fn last_group(s: Seq<char>) -> Seq<char> {
    let n = if s.len() < 4 { s.len() as int } else { 4 };
    Seq::new((4 - n) as nat, |i: int| '0') + s.subrange(s.len() - n, s.len() as int)
}

/// `s` without its last four digits.
pub open spec fn before_group(s: Seq<char>) -> Seq<char> {
    let n = if s.len() < 4 { s.len() as int } else { 4 };
    s.subrange(0, s.len() - n)
}

fn pop_or_zero(arr: &mut Vec<char>) -> (r: char)
    ensures
        old(arr)@.len() == 0 ==> r == '0' && final(arr)@ == old(arr)@,
        old(arr)@.len() > 0 ==> r == old(arr)@.last() && final(arr)@ == old(arr)@.drop_last(),
{
    match arr.pop() {
        Some(c) => c,
        None => '0',
    }
}

/// Takes the last four digits off `arr` as a group, padded with `'0'` in front.
pub fn split_chunk(arr: &mut Vec<char>) -> (r: [char; 4])
    ensures
        r@ == last_group(old(arr)@),
        final(arr)@ == before_group(old(arr)@),
{
    let c3 = pop_or_zero(arr);
    let c2 = pop_or_zero(arr);
    let c1 = pop_or_zero(arr);
    let c0 = pop_or_zero(arr);
    let r = [c0, c1, c2, c3];
    proof {
        let s = old(arr)@;
        assert(r@ =~= last_group(s));
        assert(arr@ =~= before_group(s));
    }
    r
}

/// The words of one group of four digits and, for the zeros between groups,
/// whether it starts and whether it ends with a zero. An all-zero group is empty.
pub open spec fn chunk_words(chunk: Seq<char>, prefix: Seq<Seq<char>>, transer: Map<char, &str>, primary: Seq<char>) -> (Seq<char>, (bool, bool)) {
    let unit = |i: int| name_of(transer, chunk[i]) + prefix[i];
    let zero_word = seq!['\u{96f6}'];
    if chunk[0] == '0' && chunk[1] == '0' && chunk[2] == '0' && chunk[3] == '0' {
        (seq![], (true, true))
    } else {
        let (s0, z0) = if chunk[0] != '0' { (unit(0), true) } else { (seq![], false) };
        let (s1, z1) = if chunk[1] != '0' {
            (s0 + unit(1), true)
        } else if z0 && (chunk[2] != '0' || chunk[3] != '0') {
            (s0 + zero_word, false)
        } else {
            (s0, z0)
        };
        let s2 = if chunk[2] != '0' {
            s1 + unit(2)
        } else if z1 && chunk[3] != '0' {
            s1 + zero_word
        } else {
            s1
        };
        let s3 = if chunk[3] != '0' { s2 + unit(3) } else { s2 };
        (s3 + primary, (chunk[0] == '0', chunk[3] == '0'))
    }
}

pub open spec fn strs_view(v: Seq<&str>) -> Seq<Seq<char>> {
    v.map_values(|s: &str| s@)
}

fn push_unit(result: &mut String, chunk: &[char; 4], i: usize, prefix: &[&str], transer: &HashMap<char, &str>)
    requires
        i < 4,
        prefix@.len() >= 4,
    ensures
        final(result)@ == old(result)@ + name_of(transer@, chunk@[i as int]) + prefix@[i as int]@,
{
    result.append(digit_name(transer, chunk[i]));
    result.append(prefix[i]);
}

/// Writes out one group of four digits, followed by `primary` unless the group is all zeros.
pub fn convert_chunk(chunk: &[char; 4], prefix: &[&str], transer: &HashMap<char, &str>, primary: &str) -> (r: (String, (bool, bool)))
    requires
        prefix@.len() >= 4,
    ensures
        (r.0@, r.1) == chunk_words(chunk@, strs_view(prefix@), transer@, primary@),
{
    let mut result = String::new();
    if chunk[0] == '0' && chunk[1] == '0' && chunk[2] == '0' && chunk[3] == '0' {
        return (result, (true, true));
    }
    proof {
        reveal_strlit("\u{96f6}");
        assert(strs_view(prefix@)[0] == prefix@[0]@);
        assert(strs_view(prefix@)[1] == prefix@[1]@);
        assert(strs_view(prefix@)[2] == prefix@[2]@);
        assert(strs_view(prefix@)[3] == prefix@[3]@);
    }
    let mut zero = false;
    if chunk[0] != '0' {
        push_unit(&mut result, chunk, 0, prefix, transer);
        zero = true;
    }
    if chunk[1] != '0' {
        push_unit(&mut result, chunk, 1, prefix, transer);
        zero = true;
    } else if zero && (chunk[2] != '0' || chunk[3] != '0') {
        result.append("\u{96f6}");
        zero = false;
    }
    if chunk[2] != '0' {
        push_unit(&mut result, chunk, 2, prefix, transer);
    } else if zero && chunk[3] != '0' {
        result.append("\u{96f6}");
    }
    if chunk[3] != '0' {
        push_unit(&mut result, chunk, 3, prefix, transer);
    }
    result.append(primary);
    (result, (chunk[0] == '0', chunk[3] == '0'))
}

/// The digit groups of `s`, most significant first, the first padded with `'0'`.
pub open spec fn groups(s: Seq<char>) -> Seq<Seq<char>>
    decreases s.len(),
{
    if s.len() == 0 {
        seq![]
    } else {
        groups(before_group(s)).push(last_group(s))
    }
}

pub open spec fn unit_suffixes() -> Seq<Seq<char>> {
    seq!["\u{4edf}"@, "\u{4f70}"@, "\u{62fe}"@, ""@]
}

pub open spec fn group_suffixes() -> Seq<Seq<char>> {
    seq!["\u{4e07}\u{4ebf}"@, "\u{4ebf}"@, "\u{4e07}"@, ""@]
}

/// The words of the first `k` groups, and whether a zero is pending before the next.
pub open spec fn words_upto(gs: Seq<Seq<char>>, k: nat, transer: Map<char, &str>) -> (Seq<char>, bool)
    decreases k,
{
    if k == 0 {
        (seq![], false)
    } else {
        let (acc, pending) = words_upto(gs, (k - 1) as nat, transer);
        let i = k - 1;
        let (tmp, (starts, ends)) = chunk_words(gs[i], unit_suffixes(), transer, group_suffixes()[4 - gs.len() + i]);
        if tmp.len() == 0 {
            (acc, true)
        } else {
            let acc2 = if i > 0 && (pending || starts) { acc + seq!['\u{96f6}'] } else { acc };
            (acc2 + tmp, ends)
        }
    }
}

/// The amount with integer digits `digits` and two fraction digits `frac`, in words;
/// `None` past sixteen integer digits.
pub open spec fn money_text(digits: Seq<char>, frac: Seq<char>, transer: Map<char, &str>) -> Option<Seq<char>> {
    if digits.len() > 16 {
        None
    } else {
        let gs = groups(digits);
        let body = words_upto(gs, gs.len(), transer).0;
        let full_zero = digits.last() == '0' && digits.len() == 1;
        let r1 = if !full_zero { body + seq!['\u{5706}'] } else { body };
        if !full_zero && frac[0] == '0' && frac[1] == '0' {
            Some(r1 + seq!['\u{6574}'])
        } else {
            let r2 = if frac[0] != '0' { r1 + name_of(transer, frac[0]) + seq!['\u{89d2}'] } else { r1 };
            let r3 = if frac[1] != '0' { r2 + name_of(transer, frac[1]) + seq!['\u{5206}'] } else { r2 };
            Some(r3)
        }
    }
}

/// The financial numeral of each digit.
pub open spec fn digit_names() -> Map<char, Seq<char>> {
    map![
        '0' => "\u{96f6}"@, '1' => "\u{58f9}"@, '2' => "\u{8d30}"@, '3' => "\u{53c1}"@, '4' => "\u{8086}"@,
        '5' => "\u{4f0d}"@, '6' => "\u{9646}"@, '7' => "\u{67d2}"@, '8' => "\u{634c}"@, '9' => "\u{7396}"@
    ]
}

fn make_transer() -> (r: HashMap<char, &'static str>)
    ensures
        r@.dom() == digit_names().dom(),
        forall|c: char| #[trigger] r@.contains_key(c) ==> r@[c]@ == digit_names()[c],
{
    let mut t: HashMap<char, &'static str> = HashMap::new();
    insert_name(&mut t, '0', "\u{96f6}");
    insert_name(&mut t, '1', "\u{58f9}");
    insert_name(&mut t, '2', "\u{8d30}");
    insert_name(&mut t, '3', "\u{53c1}");
    insert_name(&mut t, '4', "\u{8086}");
    insert_name(&mut t, '5', "\u{4f0d}");
    insert_name(&mut t, '6', "\u{9646}");
    insert_name(&mut t, '7', "\u{67d2}");
    insert_name(&mut t, '8', "\u{634c}");
    insert_name(&mut t, '9', "\u{7396}");
    assert(t@.dom() =~= digit_names().dom());
    t
}

fn groups_of(digits: Vec<char>) -> (r: Vec<[char; 4]>)
    requires
        digits@.len() <= 16,
    ensures
        r@.map_values(|a: [char; 4]| a@) == groups(digits@),
        r@.len() <= 4,
{
    let mut digits = digits;
    let ghost whole = digits@;
    let mut chunks: Vec<[char; 4]> = Vec::new();
    while digits.len() > 0
        invariant
            groups(whole) == groups(digits@) + chunks@.map_values(|a: [char; 4]| a@),
            4 * chunks@.len() + digits@.len() + 3 <= 19,
        decreases digits@.len(),
    {
        let ghost before = digits@;
        let ghost cs = chunks@;
        let c = split_chunk(&mut digits);
        chunks.insert(0, c);
        proof {
            assert(groups(before) == groups(digits@).push(c@));
            assert(chunks@.map_values(|a: [char; 4]| a@) =~= seq![c@] + cs.map_values(|a: [char; 4]| a@));
            assert(groups(digits@).push(c@) + cs.map_values(|a: [char; 4]| a@) =~= groups(digits@) + chunks@.map_values(|a: [char; 4]| a@));
        }
    }
    assert(groups(digits@) == Seq::<Seq<char>>::empty());
    assert(groups(whole) =~= chunks@.map_values(|a: [char; 4]| a@));
    chunks
}

fn words_of(chunks: &Vec<[char; 4]>, transer: &HashMap<char, &str>) -> (r: String)
    requires
        chunks@.len() <= 4,
    ensures
        r@ == words_upto(chunks@.map_values(|a: [char; 4]| a@), chunks@.len(), transer@).0,
{
    let ghost gs = chunks@.map_values(|a: [char; 4]| a@);
    let mut suffix: Vec<&str> = Vec::new();
    suffix.push("\u{4edf}");
    suffix.push("\u{4f70}");
    suffix.push("\u{62fe}");
    suffix.push("");
    let mut primarys: Vec<&str> = Vec::new();
    primarys.push("\u{4e07}\u{4ebf}");
    primarys.push("\u{4ebf}");
    primarys.push("\u{4e07}");
    primarys.push("");
    assert(strs_view(suffix@) =~= unit_suffixes());
    assert(strs_view(primarys@) =~= group_suffixes());
    let n = chunks.len();
    let mut result = String::new();
    let mut is_zero = false;
    let mut i: usize = 0;
    while i < n
        invariant
            n == chunks@.len(),
            n <= 4,
            i <= n,
            gs == chunks@.map_values(|a: [char; 4]| a@),
            suffix@.len() == 4,
            primarys@.len() == 4,
            strs_view(suffix@) == unit_suffixes(),
            strs_view(primarys@) == group_suffixes(),
            (result@, is_zero) == words_upto(gs, i as nat, transer@),
        decreases n - i,
    {
        let index = 4 - n + i;
        let (tmp, (start_zero, end_zero)) = convert_chunk(&chunks[i], suffix.as_slice(), transer, primarys[index]);
        proof {
            assert(gs[i as int] == chunks@[i as int]@);
            assert(strs_view(primarys@)[index as int] == primarys@[index as int]@);
            reveal_strlit("\u{96f6}");
            assert("\u{96f6}"@ =~= seq!['\u{96f6}']);
        }
        if tmp.unicode_len() == 0 {
            is_zero = true;
        } else {
            if i > 0 && (is_zero || start_zero) {
                result.append("\u{96f6}");
            }
            result.append(tmp.as_str());
            is_zero = end_zero;
        }
        i = i + 1;
    }
    result
}

/// Writes out an amount from its integer digits `digits` and its two fraction digits
/// `frac`, in financial numerals: groups of four with 万, 亿 and 万亿, then 圆,
/// 角 and 分, or 整 when there is no fraction. `None` past sixteen integer digits.
pub fn convert_digits(digits: Vec<char>, frac: [char; 2]) -> (r: Option<String>)
    requires
        digits@.len() > 0,
    ensures
        exists|t: Map<char, &str>| #[trigger] t.dom() == digit_names().dom()
            && (forall|c: char| #[trigger] t.contains_key(c) ==> t[c]@ == digit_names()[c])
            && match money_text(digits@, frac@, t) {
                None => r is None,
                Some(text) => r matches Some(s) && s@ == text,
            },
{
    let transer = make_transer();
    if digits.len() > 16 {
        return None;
    }
    let ghost whole = digits@;
    let full_zero = digits[digits.len() - 1] == '0' && digits.len() == 1;
    let chunks = groups_of(digits);
    let mut result = words_of(&chunks, &transer);
    proof {
        reveal_strlit("\u{5706}");
        reveal_strlit("\u{6574}");
        reveal_strlit("\u{89d2}");
        reveal_strlit("\u{5206}");
        assert("\u{5706}"@ =~= seq!['\u{5706}']);
        assert("\u{6574}"@ =~= seq!['\u{6574}']);
        assert("\u{89d2}"@ =~= seq!['\u{89d2}']);
        assert("\u{5206}"@ =~= seq!['\u{5206}']);
    }
    if !full_zero {
        result.append("\u{5706}");
    }
    if !full_zero && frac[0] == '0' && frac[1] == '0' {
        result.append("\u{6574}");
        return Some(result);
    }
    if frac[0] != '0' {
        result.append(digit_name(&transer, frac[0]));
        result.append("\u{89d2}");
    }
    if frac[1] != '0' {
        result.append(digit_name(&transer, frac[1]));
        result.append("\u{5206}");
    }
    Some(result)
}

} // verus!
