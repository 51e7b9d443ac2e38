//! Site passwords: rejection sampling of derived bytes onto a constrained
//! alphabet, then an ordered repair of missing character classes.
use crate::error::Error;
use crate::seed::{derivation_path, derived, Seed};
use crate::text::{
    append_bytes, string_from_utf8, wipe_bytes, decimal, decimal_bytes, lemma_decimal_injective, lemma_prefix_distinguishes,
    lemma_suffix_keeps_distinct,
};
use vstd::prelude::*;
use vstd::utf8::{
    decode_utf8, encode_utf8, encode_utf8_decode_utf8, encode_utf8_valid_utf8, is_ascii_chars,
    is_ascii_chars_encode_utf8, valid_utf8,
};

verus! {

/// Shortest password that can be synthesized.
pub const MIN_PASSWORD_LEN: usize = 4;

/// Longest password that can be synthesized.
pub const MAX_PASSWORD_LEN: usize = 128;

/// Uppercase letters without the look-alikes I and O.
pub open spec fn upper_set() -> Seq<u8> {
    seq![
        0x41u8, 0x42u8, 0x43u8, 0x44u8, 0x45u8, 0x46u8, 0x47u8, 0x48u8, 0x4au8, 0x4bu8, 0x4cu8, 0x4du8,
        0x4eu8, 0x50u8, 0x51u8, 0x52u8, 0x53u8, 0x54u8, 0x55u8, 0x56u8, 0x57u8, 0x58u8, 0x59u8, 0x5au8,
    ]
}

/// Lowercase letters without the look-alikes i, l and o.
pub open spec fn lower_set() -> Seq<u8> {
    seq![
        0x61u8, 0x62u8, 0x63u8, 0x64u8, 0x65u8, 0x66u8, 0x67u8, 0x68u8, 0x6au8, 0x6bu8, 0x6du8, 0x6eu8,
        0x70u8, 0x71u8, 0x72u8, 0x73u8, 0x74u8, 0x75u8, 0x76u8, 0x77u8, 0x78u8, 0x79u8, 0x7au8,
    ]
}

/// Digits without the look-alikes 0 and 1.
pub open spec fn digit_set() -> Seq<u8> {
    seq![0x32u8, 0x33u8, 0x34u8, 0x35u8, 0x36u8, 0x37u8, 0x38u8, 0x39u8]
}

/// The symbols used when the caller supplies none.
pub open spec fn default_symbol_set() -> Seq<u8> {
    seq![0x21u8, 0x40u8, 0x23u8, 0x24u8, 0x25u8, 0x5eu8, 0x26u8, 0x2au8]
}

/// The symbol class in force: empty without symbols, the caller's symbols
/// when given, else the default ones.
pub open spec fn symbol_set(use_symbols: bool, symbols: Seq<u8>) -> Seq<u8> {
    if !use_symbols {
        Seq::empty()
    } else if symbols.len() == 0 {
        default_symbol_set()
    } else {
        symbols
    }
}

/// The character classes that a password must cover, in repair order.
pub open spec fn required_classes(use_symbols: bool, symbol_set: Seq<u8>) -> Seq<Seq<u8>> {
    if use_symbols {
        seq![upper_set(), lower_set(), digit_set(), symbol_set]
    } else {
        seq![upper_set(), lower_set(), digit_set()]
    }
}

/// The alphabet: the classes one after the other.
pub open spec fn alphabet(use_symbols: bool, symbol_set: Seq<u8>) -> Seq<u8> {
    if use_symbols {
        upper_set() + lower_set() + digit_set() + symbol_set
    } else {
        upper_set() + lower_set() + digit_set()
    }
}

/// Bytes below this bound are accepted by rejection sampling over `n` symbols.
pub open spec fn accept_limit(n: int) -> int {
    256int - 256int % n
}

/// The raw bytes that rejection sampling accepts, in stream order.
pub open spec fn accepted(raw: Seq<u8>, n: int) -> Seq<u8> {
    raw.filter(|b: u8| (b as int) < accept_limit(n))
}

/// Rejection sampling: the first `length` accepted bytes, each mapped to the
/// alphabet by modulo; positions left over take the raw byte at that position
/// by plain modulo.
pub open spec fn sampled(raw: Seq<u8>, cs: Seq<u8>, length: nat) -> Seq<u8> {
    let acc = accepted(raw, cs.len() as int);
    Seq::new(
        length,
        |i: int|
            if i < acc.len() {
                cs[acc[i] as int % cs.len() as int]
            } else {
                cs[raw[i] as int % cs.len() as int]
            },
    )
}

/// Whether some character of `pw` belongs to `class`.
pub open spec fn has_member(pw: Seq<u8>, class: Seq<u8>) -> bool {
    exists|i: int| 0 <= i < pw.len() && class.contains(#[trigger] pw[i])
}

/// Position overwritten by the repair of class `k`.
pub open spec fn repair_pos(pw: Seq<u8>, fix: Seq<u8>, k: int) -> int {
    fix[2 * k] as int % pw.len() as int
}

/// Character written by the repair of class `k`.
pub open spec fn repair_char(fix: Seq<u8>, class: Seq<u8>, k: int) -> u8 {
    class[fix[2 * k + 1] as int % class.len() as int]
}

/// The repair of class `k`: nothing when `pw` already covers it, else one
/// position chosen by the fix bytes takes a character of the class.
pub open spec fn repair_step(pw: Seq<u8>, fix: Seq<u8>, class: Seq<u8>, k: int) -> Seq<u8> {
    if has_member(pw, class) {
        pw
    } else {
        pw.update(repair_pos(pw, fix, k), repair_char(fix, class, k))
    }
}

/// `pw` after the repairs of the first `k` classes, in order.
pub open spec fn repaired(pw: Seq<u8>, fix: Seq<u8>, classes: Seq<Seq<u8>>, k: nat) -> Seq<u8>
    decreases k,
{
    if k == 0 {
        pw
    } else {
        let k1 = (k - 1) as nat;
        repair_step(repaired(pw, fix, classes, k1), fix, classes[k1 as int], k1 as int)
    }
}

/// The password bytes synthesized from the sampling stream and the fix bytes.
pub open spec fn password_bytes(raw: Seq<u8>, fix: Seq<u8>, length: nat, use_symbols: bool, symbols: Seq<u8>) -> Seq<u8> {
    let ss = symbol_set(use_symbols, symbols);
    let classes = required_classes(use_symbols, ss);
    repaired(sampled(raw, alphabet(use_symbols, ss), length), fix, classes, classes.len())
}

/// The purpose of a password derivation: "pw/" + site + "/" + counter.
pub open spec fn password_purpose(site: Seq<char>, counter: u32) -> Seq<u8> {
    seq![0x70u8, 0x77u8, 0x2fu8] + encode_utf8(site) + seq![0x2fu8] + decimal(counter as nat)
}

/// The purpose of the fix bytes: the password purpose followed by "/fix".
pub open spec fn fix_purpose(site: Seq<char>, counter: u32) -> Seq<u8> {
    password_purpose(site, counter) + seq![0x2fu8, 0x66u8, 0x69u8, 0x78u8]
}

/// The bytes of the password for a master key and its parameters.
pub open spec fn site_password(
    master: Seq<u8>,
    realm: Seq<char>,
    site: Seq<char>,
    counter: u32,
    length: nat,
    use_symbols: bool,
    symbols: Seq<u8>,
) -> Seq<u8> {
    password_bytes(
        derived(master, realm, password_purpose(site, counter), 2 * length),
        derived(master, realm, fix_purpose(site, counter), 8),
        length,
        use_symbols,
        symbols,
    )
}

fn upper_bytes() -> (v: Vec<u8>)
    ensures
        v@ == upper_set(),
{
    let v: Vec<u8> = vec![
        0x41u8, 0x42u8, 0x43u8, 0x44u8, 0x45u8, 0x46u8, 0x47u8, 0x48u8, 0x4au8, 0x4bu8, 0x4cu8, 0x4du8,
        0x4eu8, 0x50u8, 0x51u8, 0x52u8, 0x53u8, 0x54u8, 0x55u8, 0x56u8, 0x57u8, 0x58u8, 0x59u8, 0x5au8,
    ];
    assert(v@ =~= upper_set());
    v
}

fn lower_bytes() -> (v: Vec<u8>)
    ensures
        v@ == lower_set(),
{
    let v: Vec<u8> = vec![
        0x61u8, 0x62u8, 0x63u8, 0x64u8, 0x65u8, 0x66u8, 0x67u8, 0x68u8, 0x6au8, 0x6bu8, 0x6du8, 0x6eu8,
        0x70u8, 0x71u8, 0x72u8, 0x73u8, 0x74u8, 0x75u8, 0x76u8, 0x77u8, 0x78u8, 0x79u8, 0x7au8,
    ];
    assert(v@ =~= lower_set());
    v
}

fn digit_bytes() -> (v: Vec<u8>)
    ensures
        v@ == digit_set(),
{
    let v: Vec<u8> = vec![0x32u8, 0x33u8, 0x34u8, 0x35u8, 0x36u8, 0x37u8, 0x38u8, 0x39u8];
    assert(v@ =~= digit_set());
    v
}

fn symbol_bytes(use_symbols: bool, symbols: &[u8]) -> (v: Vec<u8>)
    ensures
        v@ == symbol_set(use_symbols, symbols@),
{
    if !use_symbols {
        let v: Vec<u8> = Vec::new();
        assert(v@ =~= symbol_set(use_symbols, symbols@));
        v
    } else if symbols.len() == 0 {
        let v: Vec<u8> = vec![0x21u8, 0x40u8, 0x23u8, 0x24u8, 0x25u8, 0x5eu8, 0x26u8, 0x2au8];
        assert(v@ =~= default_symbol_set());
        v
    } else {
        let mut v: Vec<u8> = Vec::new();
        append_bytes(&mut v, symbols);
        assert(v@ =~= symbols@);
        v
    }
}

fn alphabet_bytes(use_symbols: bool, symbol_set: &[u8]) -> (v: Vec<u8>)
    ensures
        v@ == alphabet(use_symbols, symbol_set@),
{
    let mut v = upper_bytes();
    append_bytes(&mut v, lower_bytes().as_slice());
    append_bytes(&mut v, digit_bytes().as_slice());
    if use_symbols {
        append_bytes(&mut v, symbol_set);
    }
    v
}

fn required_class(k: usize, symbol_set: &[u8]) -> (c: Vec<u8>)
    requires
        k < 4,
    ensures
        c@ == required_classes(true, symbol_set@)[k as int],
{
    if k == 0 {
        upper_bytes()
    } else if k == 1 {
        lower_bytes()
    } else if k == 2 {
        digit_bytes()
    } else {
        let mut v: Vec<u8> = Vec::new();
        append_bytes(&mut v, symbol_set);
        assert(v@ =~= symbol_set@);
        v
    }
}

fn contains_byte(set: &[u8], b: u8) -> (r: bool)
    ensures
        r == set@.contains(b),
{
    let mut i: usize = 0;
    while i < set.len()
        invariant
            i <= set@.len(),
            forall|j: int| 0 <= j < i ==> set@[j] != b,
        decreases set@.len() - i,
    {
        if set[i] == b {
            return true;
        }
        i += 1;
    }
    false
}

fn has_member_exec(pw: &[u8], class: &[u8]) -> (r: bool)
    ensures
        r == has_member(pw@, class@),
{
    let mut i: usize = 0;
    while i < pw.len()
        invariant
            i <= pw@.len(),
            forall|j: int| 0 <= j < i ==> !class@.contains(#[trigger] pw@[j]),
        decreases pw@.len() - i,
    {
        if contains_byte(class, pw[i]) {
            return true;
        }
        i += 1;
    }
    false
}

/// Rejection-samples `length` alphabet characters from the raw stream.
fn sample(raw: &[u8], cs: &[u8], length: usize) -> (pw: Vec<u8>)
    requires
        cs@.len() > 0,
        raw@.len() >= length,
    ensures
        pw@ == sampled(raw@, cs@, length as nat),
{
    let n = cs.len();
    assert(256usize % n <= 256usize) by (nonlinear_arith)
        requires
            n > 0,
    ;
    let limit: usize = 256 - 256 % n;
    let ghost pred = |b: u8| (b as int) < accept_limit(n as int);
    let mut pw: Vec<u8> = Vec::new();
    let mut i: usize = 0;
    while i < raw.len()
        invariant
            n == cs@.len(),
            n > 0,
            limit == accept_limit(n as int),
            pred == (|b: u8| (b as int) < accept_limit(n as int)),
            i <= raw@.len(),
            pw@.len() <= length,
            pw@.len() == length || pw@.len() == raw@.subrange(0, i as int).filter(pred).len(),
            pw@.len() <= raw@.subrange(0, i as int).filter(pred).len(),
            forall|j: int|
                0 <= j < pw@.len() ==> pw@[j] == cs@[raw@.subrange(0, i as int).filter(pred)[j] as int % n as int],
        decreases raw@.len() - i,
    {
        let b = raw[i];
        let ghost before = raw@.subrange(0, i as int);
        let ghost after = raw@.subrange(0, i + 1);
        assert(after.drop_last() =~= before);
        assert(after.last() == b);
        reveal(Seq::filter);
        assert(after.filter(pred) == if pred(b) { before.filter(pred).push(b) } else { before.filter(pred) });
        if (b as usize) < limit && pw.len() < length {
            pw.push(cs[b as usize % n]);
        }
        i += 1;
    }
    assert(raw@.subrange(0, raw@.len() as int) =~= raw@);
    assert(accepted(raw@, n as int) == raw@.filter(pred));
    while pw.len() < length
        invariant
            n == cs@.len(),
            n > 0,
            raw@.len() >= length,
            pw@.len() <= length,
            pw@.len() == length || pw@.len() >= accepted(raw@, n as int).len(),
            forall|j: int| 0 <= j < pw@.len() ==> pw@[j] == #[trigger] sampled(raw@, cs@, length as nat)[j],
        decreases length - pw@.len(),
    {
        let idx = pw.len();
        pw.push(cs[raw[idx] as usize % n]);
    }
    assert(pw@ =~= sampled(raw@, cs@, length as nat));
    pw
}

/// Makes sure `pw` holds a character of each required class: each class that
/// is missing, in order, overwrites the position given by the next fix byte
/// with the class character that the byte after it selects.
pub fn ensure_requirements(pw: &mut Vec<u8>, fix: &[u8], use_symbols: bool, symbol_set: &[u8])
    requires
        old(pw)@.len() > 0,
        fix@.len() >= 2 * required_classes(use_symbols, symbol_set@).len(),
        use_symbols ==> symbol_set@.len() > 0,
    ensures
        final(pw)@ == repaired(
            old(pw)@,
            fix@,
            required_classes(use_symbols, symbol_set@),
            required_classes(use_symbols, symbol_set@).len(),
        ),
        final(pw)@.len() == old(pw)@.len(),
        ({
            let classes = required_classes(use_symbols, symbol_set@);
            has_member(final(pw)@, classes[classes.len() - 1])
        }),
{
    let ghost classes = required_classes(use_symbols, symbol_set@);
    let count: usize = if use_symbols { 4 } else { 3 };
    let mut k: usize = 0;
    while k < count
        invariant
            count == classes.len(),
            k <= count,
            fix@.len() >= 2 * count,
            classes == required_classes(use_symbols, symbol_set@),
            use_symbols ==> symbol_set@.len() > 0,
            pw@.len() == old(pw)@.len(),
            pw@.len() > 0,
            pw@ == repaired(old(pw)@, fix@, classes, k as nat),
        decreases count - k,
    {
        let req = required_class(k, symbol_set);
        assert(req@ == classes[k as int]);
        if !has_member_exec(pw.as_slice(), req.as_slice()) {
            let pos = fix[2 * k] as usize % pw.len();
            let char_idx = fix[2 * k + 1] as usize % req.len();
            pw.set(pos, req[char_idx]);
        }
        k += 1;
    }
    proof {
        assert(classes[classes.len() - 1].len() > 0);
        lemma_repaired_last_covered(old(pw)@, fix@, classes);
    }
}

/// Synthesizes a password from its sampling stream and its fix bytes.
pub fn synthesize(raw: &[u8], fix: &[u8], length: usize, use_symbols: bool, symbols: &[u8]) -> (pw: Vec<u8>)
    requires
        MIN_PASSWORD_LEN <= length <= MAX_PASSWORD_LEN,
        raw@.len() == 2 * length,
        fix@.len() == 8,
    ensures
        pw@ == password_bytes(raw@, fix@, length as nat, use_symbols, symbols@),
{
    let symbol_set = symbol_bytes(use_symbols, symbols);
    let charset = alphabet_bytes(use_symbols, symbol_set.as_slice());
    let mut pw = sample(raw, charset.as_slice(), length);
    ensure_requirements(&mut pw, fix, use_symbols, symbol_set.as_slice());
    pw
}

/// Derives the password of a site: `length` characters from the alphabet,
/// covering each required class; `counter` rotates it.
pub fn derive(
    seed: &Seed,
    realm: &str,
    site: &str,
    counter: u32,
    length: usize,
    use_symbols: bool,
    symbols: &str,
) -> (r: Result<String, Error>)
    ensures
        (length < MIN_PASSWORD_LEN || length > MAX_PASSWORD_LEN) ==> r == Err::<String, Error>(
            Error::PasswordLength(length),
        ),
        MIN_PASSWORD_LEN <= length <= MAX_PASSWORD_LEN ==> ({
            let pw = site_password(seed@, realm@, site@, counter, length as nat, use_symbols, encode_utf8(symbols@));
            match r {
                Ok(s) => valid_utf8(pw) && s@ == decode_utf8(pw),
                Err(e) => !valid_utf8(pw) && e == Error::InputFormat,
            }
        }),
        MIN_PASSWORD_LEN <= length <= MAX_PASSWORD_LEN ==> ({
            let pw = site_password(seed@, realm@, site@, counter, length as nat, use_symbols, encode_utf8(symbols@));
            let classes = required_classes(use_symbols, symbol_set(use_symbols, encode_utf8(symbols@)));
            has_member(pw, classes[classes.len() - 1])
        }),
        (MIN_PASSWORD_LEN <= length <= MAX_PASSWORD_LEN && (use_symbols ==> is_ascii_chars(symbols@))) ==> (r matches Ok(s)
            && s@.len() == length && forall|i: int|
            0 <= i < length ==> alphabet(use_symbols, symbol_set(use_symbols, encode_utf8(symbols@))).contains(
                #[trigger] s@[i] as u8,
            )),
{
    if length < MIN_PASSWORD_LEN || length > MAX_PASSWORD_LEN {
        return Err(Error::PasswordLength(length));
    }
    let mut purpose: Vec<u8> = vec![0x70u8, 0x77u8, 0x2fu8];
    append_bytes(&mut purpose, site.as_bytes());
    purpose.push(0x2fu8);
    append_bytes(&mut purpose, decimal_bytes(counter).as_slice());
    assert(purpose@ =~= password_purpose(site@, counter));
    let mut fix_path = purpose.clone();
    append_bytes(&mut fix_path, [0x2fu8, 0x66u8, 0x69u8, 0x78u8].as_slice());
    assert(fix_path@ =~= fix_purpose(site@, counter));
    let mut raw = match seed.derive_for(realm, purpose.as_slice(), length * 2) {
        Ok(v) => v,
        Err(e) => return Err(e),
    };
    let mut fix = match seed.derive_for(realm, fix_path.as_slice(), 8) {
        Ok(v) => v,
        Err(e) => return Err(e),
    };
    let pw = synthesize(raw.as_slice(), fix.as_slice(), length, use_symbols, symbols.as_bytes());
    proof {
        lemma_last_class_covered(raw@, fix@, length as nat, use_symbols, encode_utf8(symbols@));
        if use_symbols ==> is_ascii_chars(symbols@) {
            lemma_ascii_password(raw@, fix@, length as nat, use_symbols, symbols@);
        }
    }
    wipe_bytes(&mut raw);
    wipe_bytes(&mut fix);
    match string_from_utf8(pw) {
        Some(s) => Ok(s),
        None => Err(Error::InputFormat),
    }
}

/// Whether, for each pair of classes `k < j`, the repair of class `j` leaves
/// some member of class `k` in place: it does not run, or it writes a member
/// of class `k`, or another position still holds one.
pub open spec fn repairs_keep_earlier(pw: Seq<u8>, fix: Seq<u8>, classes: Seq<Seq<u8>>) -> bool {
    forall|k: int, j: int|
        #![trigger classes[k], repaired(pw, fix, classes, j as nat)]
        0 <= k < j < classes.len() ==> {
            let s = repaired(pw, fix, classes, j as nat);
            ||| has_member(s, classes[j])
            ||| classes[k].contains(repair_char(fix, classes[j], j))
            ||| exists|i: int|
                0 <= i < s.len() && i != repair_pos(s, fix, j) && classes[k].contains(#[trigger] s[i])
        }
}

proof fn lemma_repaired_len(pw: Seq<u8>, fix: Seq<u8>, classes: Seq<Seq<u8>>, k: nat)
    requires
        pw.len() > 0,
    ensures
        repaired(pw, fix, classes, k).len() == pw.len(),
    decreases k,
{
    if k > 0 {
        let k1 = (k - 1) as nat;
        lemma_repaired_len(pw, fix, classes, k1);
        let s = repaired(pw, fix, classes, k1);
        assert(0 <= (fix[2 * k1 as int] as int) % (s.len() as int) < s.len());
    }
}

proof fn lemma_repaired_within(pw: Seq<u8>, fix: Seq<u8>, classes: Seq<Seq<u8>>, k: nat, cs: Seq<u8>)
    requires
        pw.len() > 0,
        k <= classes.len(),
        forall|i: int| 0 <= i < pw.len() ==> cs.contains(#[trigger] pw[i]),
        forall|m: int| 0 <= m < classes.len() ==> (#[trigger] classes[m]).len() > 0,
        forall|m: int, j: int|
            0 <= m < classes.len() && 0 <= j < classes[m].len() ==> cs.contains(#[trigger] classes[m][j]),
    ensures
        forall|i: int|
            0 <= i < pw.len() ==> cs.contains(#[trigger] repaired(pw, fix, classes, k)[i]),
    decreases k,
{
    if k > 0 {
        let k1 = (k - 1) as nat;
        lemma_repaired_within(pw, fix, classes, k1, cs);
        lemma_repaired_len(pw, fix, classes, k1);
        let s = repaired(pw, fix, classes, k1);
        let c = classes[k1 as int];
        assert(c.len() > 0);
        assert(0 <= (fix[2 * k1 + 1int] as int) % (c.len() as int) < c.len());
        assert(cs.contains(repair_char(fix, c, k1 as int)));
    }
}

proof fn lemma_repaired_covers(pw: Seq<u8>, fix: Seq<u8>, classes: Seq<Seq<u8>>, m: nat)
    requires
        pw.len() > 0,
        m <= classes.len(),
        forall|c: int| 0 <= c < classes.len() ==> (#[trigger] classes[c]).len() > 0,
        repairs_keep_earlier(pw, fix, classes),
    ensures
        forall|k: int| 0 <= k < m ==> has_member(repaired(pw, fix, classes, m), #[trigger] classes[k]),
    decreases m,
{
    if m > 0 {
        let m1 = (m - 1) as nat;
        lemma_repaired_covers(pw, fix, classes, m1);
        lemma_repaired_len(pw, fix, classes, m1);
        let s = repaired(pw, fix, classes, m1);
        let c = classes[m1 as int];
        let t = repaired(pw, fix, classes, m);
        if !has_member(s, c) {
            let pos = repair_pos(s, fix, m1 as int);
            assert(0 <= (fix[2 * m1 + 1int] as int) % (c.len() as int) < c.len());
            assert(c.contains(t[pos]));
            assert(has_member(t, c));
            assert forall|k: int| 0 <= k < m implies has_member(t, #[trigger] classes[k]) by {
                if k < m1 {
                    assert(has_member(s, classes[k]));
                    if classes[k].contains(repair_char(fix, c, m1 as int)) {
                        assert(classes[k].contains(t[pos]));
                    } else {
                        let i = choose|i: int|
                            0 <= i < s.len() && i != pos && classes[k].contains(#[trigger] s[i]);
                        assert(classes[k].contains(t[i]));
                    }
                }
            }
        }
    }
}

proof fn lemma_classes_in_alphabet(use_symbols: bool, ss: Seq<u8>)
    ensures
        forall|m: int, j: int|
            0 <= m < required_classes(use_symbols, ss).len() && 0 <= j < required_classes(use_symbols, ss)[m].len()
                ==> alphabet(use_symbols, ss).contains(#[trigger] required_classes(use_symbols, ss)[m][j]),
{
    let cs = alphabet(use_symbols, ss);
    let classes = required_classes(use_symbols, ss);
    assert forall|m: int, j: int| 0 <= m < classes.len() && 0 <= j < classes[m].len() implies cs.contains(
        #[trigger] classes[m][j],
    ) by {
        if m == 0 {
            assert(cs[j] == classes[m][j]);
        } else if m == 1 {
            assert(cs[24 + j] == classes[m][j]);
        } else if m == 2 {
            assert(cs[47 + j] == classes[m][j]);
        } else {
            assert(cs[55 + j] == classes[m][j]);
        }
    }
}

proof fn lemma_sampled_in_alphabet(raw: Seq<u8>, cs: Seq<u8>, length: nat)
    requires
        cs.len() > 0,
        raw.len() >= length,
    ensures
        forall|i: int| 0 <= i < length ==> cs.contains(#[trigger] sampled(raw, cs, length)[i]),
{
    let pw = sampled(raw, cs, length);
    let n = cs.len() as int;
    let acc = accepted(raw, n);
    assert forall|i: int| 0 <= i < length implies cs.contains(#[trigger] pw[i]) by {
        if i < acc.len() {
            assert(0 <= (acc[i] as int) % n < n);
        } else {
            assert(0 <= (raw[i] as int) % n < n);
        }
    }
}

/// Every synthesized password has exactly the requested length, and each of
/// its characters belongs to the alphabet in force.
pub proof fn lemma_password_in_alphabet(raw: Seq<u8>, fix: Seq<u8>, length: nat, use_symbols: bool, symbols: Seq<u8>)
    requires
        MIN_PASSWORD_LEN <= length <= MAX_PASSWORD_LEN,
        raw.len() == 2 * length,
        fix.len() == 8,
    ensures
        password_bytes(raw, fix, length, use_symbols, symbols).len() == length,
        forall|i: int|
            0 <= i < length ==> alphabet(use_symbols, symbol_set(use_symbols, symbols)).contains(
                #[trigger] password_bytes(raw, fix, length, use_symbols, symbols)[i],
            ),
{
    let ss = symbol_set(use_symbols, symbols);
    let cs = alphabet(use_symbols, ss);
    let classes = required_classes(use_symbols, ss);
    let pw = sampled(raw, cs, length);
    assert(cs.len() >= 55);
    lemma_sampled_in_alphabet(raw, cs, length);
    assert forall|c: int| 0 <= c < classes.len() implies (#[trigger] classes[c]).len() > 0 by {
        if c == 3 {
            assert(ss.len() > 0);
        }
    }
    lemma_classes_in_alphabet(use_symbols, ss);
    lemma_repaired_len(pw, fix, classes, classes.len());
    lemma_repaired_within(pw, fix, classes, classes.len(), cs);
}

/// Each required class is represented in the password, whenever no repair
/// overwrites the last member of a class repaired or found before it.
pub proof fn lemma_password_covers_classes(
    raw: Seq<u8>,
    fix: Seq<u8>,
    length: nat,
    use_symbols: bool,
    symbols: Seq<u8>,
)
    requires
        MIN_PASSWORD_LEN <= length <= MAX_PASSWORD_LEN,
        raw.len() == 2 * length,
        fix.len() == 8,
        repairs_keep_earlier(
            sampled(raw, alphabet(use_symbols, symbol_set(use_symbols, symbols)), length),
            fix,
            required_classes(use_symbols, symbol_set(use_symbols, symbols)),
        ),
    ensures
        forall|k: int|
            0 <= k < required_classes(use_symbols, symbol_set(use_symbols, symbols)).len() ==> has_member(
                password_bytes(raw, fix, length, use_symbols, symbols),
                #[trigger] required_classes(use_symbols, symbol_set(use_symbols, symbols))[k],
            ),
{
    let ss = symbol_set(use_symbols, symbols);
    let classes = required_classes(use_symbols, ss);
    let pw = sampled(raw, alphabet(use_symbols, ss), length);
    assert forall|c: int| 0 <= c < classes.len() implies (#[trigger] classes[c]).len() > 0 by {
        if c == 3 {
            assert(ss.len() > 0);
        }
    }
    lemma_repaired_covers(pw, fix, classes, classes.len());
}

proof fn lemma_repaired_last_covered(pw: Seq<u8>, fix: Seq<u8>, classes: Seq<Seq<u8>>)
    requires
        pw.len() > 0,
        classes.len() > 0,
        classes[classes.len() - 1].len() > 0,
    ensures
        has_member(repaired(pw, fix, classes, classes.len()), classes[classes.len() - 1]),
{
    let m1 = (classes.len() - 1) as nat;
    let c = classes[m1 as int];
    lemma_repaired_len(pw, fix, classes, m1);
    let s = repaired(pw, fix, classes, m1);
    let t = repaired(pw, fix, classes, classes.len());
    if !has_member(s, c) {
        let pos = repair_pos(s, fix, m1 as int);
        assert(0 <= (fix[2 * m1 + 1int] as int) % (c.len() as int) < c.len());
        assert(c.contains(t[pos]));
    }
}

/// The last required class (the symbols when enabled, else the digits) is
/// always represented: no repair comes after its own.
pub proof fn lemma_last_class_covered(raw: Seq<u8>, fix: Seq<u8>, length: nat, use_symbols: bool, symbols: Seq<u8>)
    requires
        MIN_PASSWORD_LEN <= length <= MAX_PASSWORD_LEN,
        raw.len() == 2 * length,
        fix.len() == 8,
    ensures
        ({
            let classes = required_classes(use_symbols, symbol_set(use_symbols, symbols));
            has_member(password_bytes(raw, fix, length, use_symbols, symbols), classes[classes.len() - 1])
        }),
{
    let ss = symbol_set(use_symbols, symbols);
    let classes = required_classes(use_symbols, ss);
    assert(classes[classes.len() - 1].len() > 0);
    lemma_repaired_last_covered(sampled(raw, alphabet(use_symbols, ss), length), fix, classes);
}

/// Distinct counters give distinct HKDF contexts for a site's sampling stream
/// and for its fix bytes.
pub proof fn lemma_counter_separates_contexts(realm: Seq<char>, site: Seq<char>, counter1: u32, counter2: u32)
    requires
        counter1 != counter2,
    ensures
        derivation_path(realm, password_purpose(site, counter1)) != derivation_path(
            realm,
            password_purpose(site, counter2),
        ),
        derivation_path(realm, fix_purpose(site, counter1)) != derivation_path(realm, fix_purpose(site, counter2)),
{
    if decimal(counter1 as nat) == decimal(counter2 as nat) {
        lemma_decimal_injective(counter1 as nat, counter2 as nat);
    }
    let head = seq![0x70u8, 0x77u8, 0x2fu8] + encode_utf8(site) + seq![0x2fu8];
    lemma_prefix_distinguishes(head, decimal(counter1 as nat), decimal(counter2 as nat));
    let p1 = password_purpose(site, counter1);
    let p2 = password_purpose(site, counter2);
    let root = seq![0x76u8, 0x31u8, 0x2fu8] + encode_utf8(realm) + seq![0x2fu8];
    lemma_prefix_distinguishes(root, p1, p2);
    let tail = seq![0x2fu8, 0x66u8, 0x69u8, 0x78u8];
    lemma_suffix_keeps_distinct(p1, p2, tail);
    lemma_prefix_distinguishes(root, p1 + tail, p2 + tail);
}

proof fn lemma_alphabet_ascii(use_symbols: bool, ss: Seq<u8>)
    requires
        forall|j: int| 0 <= j < ss.len() ==> #[trigger] ss[j] < 128,
    ensures
        forall|j: int| 0 <= j < alphabet(use_symbols, ss).len() ==> #[trigger] alphabet(use_symbols, ss)[j] < 128,
{
    let u = upper_set();
    let l = lower_set();
    let d = digit_set();
    assert(forall|j: int| 0 <= j < u.len() ==> #[trigger] u[j] < 128);
    assert(forall|j: int| 0 <= j < l.len() ==> #[trigger] l[j] < 128);
    assert(forall|j: int| 0 <= j < d.len() ==> #[trigger] d[j] < 128);
}

/// With ASCII symbols the password bytes are ASCII, so its text has one
/// character per byte, each of them in the alphabet.
proof fn lemma_ascii_password(raw: Seq<u8>, fix: Seq<u8>, length: nat, use_symbols: bool, symbols: Seq<char>)
    requires
        MIN_PASSWORD_LEN <= length <= MAX_PASSWORD_LEN,
        raw.len() == 2 * length,
        fix.len() == 8,
        use_symbols ==> is_ascii_chars(symbols),
    ensures
        ({
            let pw = password_bytes(raw, fix, length, use_symbols, encode_utf8(symbols));
            let cs = alphabet(use_symbols, symbol_set(use_symbols, encode_utf8(symbols)));
            &&& valid_utf8(pw)
            &&& decode_utf8(pw).len() == length
            &&& forall|i: int| 0 <= i < length ==> cs.contains(#[trigger] decode_utf8(pw)[i] as u8)
        }),
{
    let e = encode_utf8(symbols);
    if use_symbols {
        is_ascii_chars_encode_utf8(symbols);
        assert forall|j: int| 0 <= j < e.len() implies #[trigger] e[j] < 128 by {
            assert(symbols[j] as u8 == e[j]);
        }
    }
    let ss = symbol_set(use_symbols, e);
    assert forall|j: int| 0 <= j < ss.len() implies #[trigger] ss[j] < 128 by {
        if use_symbols && e.len() == 0 {
            let dflt = default_symbol_set();
            assert(forall|k: int| 0 <= k < dflt.len() ==> #[trigger] dflt[k] < 128);
        }
    }
    let cs = alphabet(use_symbols, ss);
    lemma_alphabet_ascii(use_symbols, ss);
    let pw = password_bytes(raw, fix, length, use_symbols, e);
    lemma_password_in_alphabet(raw, fix, length, use_symbols, e);
    assert forall|i: int| 0 <= i < pw.len() implies #[trigger] pw[i] < 128 by {
        assert(cs.contains(pw[i]));
        let k = choose|k: int| 0 <= k < cs.len() && cs[k] == pw[i];
    }
    lemma_ascii_decodes(pw);
    assert forall|i: int| 0 <= i < length implies cs.contains(#[trigger] decode_utf8(pw)[i] as u8) by {
        assert(decode_utf8(pw)[i] == pw[i] as char);
        assert(cs.contains(pw[i]));
    }
}

/// ASCII bytes are valid UTF-8 and decode to one character per byte.
pub proof fn lemma_ascii_decodes(bytes: Seq<u8>)
    requires
        forall|i: int| 0 <= i < bytes.len() ==> #[trigger] bytes[i] < 128,
    ensures
        valid_utf8(bytes),
        decode_utf8(bytes) == Seq::new(bytes.len(), |i: int| bytes[i] as char),
{
    let chars = Seq::new(bytes.len(), |i: int| bytes[i] as char);
    assert(is_ascii_chars(chars));
    is_ascii_chars_encode_utf8(chars);
    assert(encode_utf8(chars) =~= bytes);
    encode_utf8_valid_utf8(chars);
    encode_utf8_decode_utf8(chars);
}

} // verus!
