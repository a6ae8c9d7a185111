//! Encoder for Code128 barcodes.
//!
//! Code128 is a high-density symbology that encodes alphanumeric data and
//! many special characters through three interchangeable character sets,
//! with double-density encoding of digits in set C.
//!
//! The input text selects character sets inline:
//!
//!   \a => switch to character set A
//!   \b => switch to character set B
//!   \c => switch to character set C
//!
//! For example, this payload uses character set B:
//!   \bHE1234A*1
//!
//! And this one starts in set A and switches to C to encode digits at
//! double density:
//!   \aHE@$A\c123456
//!
//! A literal backslash in the payload is written doubled:
//!   \a1234\\45AA

use vstd::prelude::*;

use crate::error::Error;
use crate::sym::patterns::bits_of;
use crate::sym::patterns::lemma_bits_binary;
use crate::sym::patterns::lookup_pattern;
use crate::sym::patterns::pattern_bits;
use crate::sym::patterns::push_bits;
use crate::sym::patterns::stop_bits;
use crate::sym::patterns::stop_code;
use vstd::arithmetic::div_mod::lemma_add_mod_noop;
use vstd::arithmetic::div_mod::lemma_add_mod_noop_right;
use vstd::arithmetic::div_mod::lemma_mod_bound;
use vstd::arithmetic::div_mod::lemma_mul_mod_noop_right;
use vstd::string::StrSliceExecFns;

verus! {

/// One of the three Code128 character sets.
#[derive(Debug, PartialEq, Eq, Clone, Copy, Structural)]
pub enum CharSet {
    A,
    B,
    C,
}

/// A tokenized symbol, tagged with the character set it was encoded in.
///
/// Sets A and B carry one character each; set C carries a pair of digits.
/// A `Unit` is only ever built by the tokenizer, which checks that the
/// symbol exists in the tagged set's table.
#[derive(Debug, PartialEq, Eq)]
pub enum Unit {
    A(char),
    B(char),
    C(char, char),
}

/// The character set a unit is tagged with.
pub open spec fn unit_set(u: Unit) -> CharSet {
    match u {
        Unit::A(_) => CharSet::A,
        Unit::B(_) => CharSet::B,
        Unit::C(_, _) => CharSet::C,
    }
}

/// Whether `c` is a decimal digit.
pub open spec fn is_digit(c: char) -> bool {
    48 <= c as u32 <= 57
}

/// Whether `c` exists in the set A table: the characters with codes
/// 0..=95 (control characters, digits, uppercase letters, punctuation).
pub open spec fn char_a_valid(c: char) -> bool {
    c as u32 <= 95
}

/// The unified symbol value of `c` in set A: printable characters map to
/// code - 32, control characters to code + 64.
pub open spec fn char_a_value(c: char) -> int {
    if c as u32 >= 32 {
        c as int - 32
    } else {
        c as int + 64
    }
}

/// Whether `c` exists in the set B table: the characters with codes
/// 32..=127 (digits, uppercase and lowercase letters, punctuation).
pub open spec fn char_b_valid(c: char) -> bool {
    32 <= c as u32 <= 127
}

/// The unified symbol value of `c` in set B: code - 32.
pub open spec fn char_b_value(c: char) -> int {
    c as int - 32
}

/// Whether a unit's symbol exists in the table of its tagged set.
pub open spec fn unit_valid(u: Unit) -> bool {
    match u {
        Unit::A(c) => char_a_valid(c),
        Unit::B(c) => char_b_valid(c),
        Unit::C(d1, d2) => is_digit(d1) && is_digit(d2),
    }
}

/// The unified symbol value (0..=102) of a valid unit: the set A or B
/// value of its character, or the numeric value of its digit pair.
pub open spec fn unit_value(u: Unit) -> int {
    match u {
        Unit::A(c) => char_a_value(c),
        Unit::B(c) => char_b_value(c),
        Unit::C(d1, d2) => (d1 as int - 48) * 10 + (d2 as int - 48),
    }
}

/// The character set selected by the directive character `d` of an
/// escape directive `\a`, `\b` or `\c`.
pub open spec fn directive_set(d: char) -> CharSet {
    if d == 'a' {
        CharSet::A
    } else if d == 'b' {
        CharSet::B
    } else {
        CharSet::C
    }
}

/// The unified start code value of character set `s`.
pub open spec fn start_value(s: CharSet) -> int {
    match s {
        CharSet::A => 103,
        CharSet::B => 104,
        CharSet::C => 105,
    }
}

/// The unified switch code value that makes `s` the active set.
pub open spec fn switch_value(s: CharSet) -> int {
    match s {
        CharSet::A => 101,
        CharSet::B => 100,
        CharSet::C => 99,
    }
}

/// The character set the start code announces: the set of the first unit.
pub open spec fn initial_set(us: Seq<Unit>) -> CharSet {
    unit_set(us[0])
}

/// The weighted sum of the units' symbol values, the first unit weighted
/// `pos` and each following unit one more.
pub open spec fn weighted_sum(us: Seq<Unit>, pos: int) -> int
    decreases us.len(),
{
    if us.len() == 0 {
        0
    } else {
        unit_value(us[0]) * pos + weighted_sum(us.skip(1), pos + 1)
    }
}

/// The modulo-103 checksum of a unit sequence: the start value weighted
/// 1, each data unit weighted by its 1-based position, summed and
/// reduced modulo 103.
pub open spec fn checksum_value(us: Seq<Unit>, start: int) -> int {
    (start + weighted_sum(us, 1)) % 103
}

/// The checksum of a barcode's units, weighted from its own start code.
pub open spec fn barcode_checksum(us: Seq<Unit>) -> int {
    checksum_value(us, start_value(initial_set(us)))
}

/// The 11 modules of unified symbol value `v`.
pub open spec fn pattern_of(v: int) -> Seq<u8> {
    bits_of(pattern_bits(v), 11)
}

/// The 13 modules of the stop pattern, termination bar included.
pub open spec fn stop_pattern() -> Seq<u8> {
    bits_of(stop_bits(), 13)
}

/// The data section of the module stream: each unit's pattern, preceded
/// by a switch code pattern whenever its set differs from the set
/// active just before it.
pub open spec fn data_modules(us: Seq<Unit>, cur: CharSet) -> Seq<u8>
    decreases us.len(),
{
    if us.len() == 0 {
        Seq::empty()
    } else {
        let s = unit_set(us[0]);
        let switch: Seq<u8> = if s == cur {
            Seq::empty()
        } else {
            pattern_of(switch_value(s))
        };
        switch + pattern_of(unit_value(us[0])) + data_modules(us.skip(1), s)
    }
}

/// The number of switch codes the data section carries.
pub open spec fn switch_count(us: Seq<Unit>, cur: CharSet) -> int
    decreases us.len(),
{
    if us.len() == 0 {
        0
    } else {
        (if unit_set(us[0]) == cur {
            0int
        } else {
            1int
        }) + switch_count(us.skip(1), unit_set(us[0]))
    }
}

/// The full module stream of a barcode: start code, data units with
/// their switch codes, checksum, stop pattern, termination module.
pub open spec fn encoded_modules(us: Seq<Unit>) -> Seq<u8> {
    pattern_of(start_value(initial_set(us))) + data_modules(us, initial_set(us)) + pattern_of(
        barcode_checksum(us),
    ) + stop_pattern() + seq![0u8]
}

/// Prepends `u` to a tokenization result, keeping failure as failure.
pub open spec fn tok_cons(u: Unit, r: Option<Seq<Unit>>) -> Option<Seq<Unit>> {
    match r {
        Some(us) => Some(seq![u] + us),
        None => None,
    }
}

/// Tokenizes `cs` in a single left-to-right pass.
///
/// `set` is the active character set and `pending` holds a first digit of
/// a set C pair that still awaits its partner. `None` is a character
/// error: a symbol absent from the active set's table, a malformed escape
/// directive, or an odd run of set C digits ended by a directive or by
/// the end of the input.
pub open spec fn tok(cs: Seq<char>, set: CharSet, pending: Option<char>) -> Option<Seq<Unit>>
    decreases cs.len(), 1int,
{
    if cs.len() == 0 {
        match pending {
            Some(_) => None,
            None => Some(Seq::empty()),
        }
    } else if cs[0] == '\\' {
        if cs.len() == 1 {
            None
        } else if cs[1] == 'a' || cs[1] == 'b' || cs[1] == 'c' {
            match pending {
                Some(_) => None,
                None => tok(cs.skip(2), directive_set(cs[1]), None),
            }
        } else if cs[1] == '\\' {
            tok_emit(cs.skip(2), set, pending, '\\')
        } else {
            None
        }
    } else {
        tok_emit(cs.skip(1), set, pending, cs[0])
    }
}

/// Appends a suffix tokenization to the units already emitted, keeping
/// failure as failure.
pub open spec fn tok_append(acc: Seq<Unit>, r: Option<Seq<Unit>>) -> Option<Seq<Unit>> {
    match r {
        Some(us) => Some(acc + us),
        None => None,
    }
}

/// Tokenizes one data character `c` in the active set, then the rest.
pub open spec fn tok_emit(rest: Seq<char>, set: CharSet, pending: Option<char>, c: char) -> Option<
    Seq<Unit>,
>
    decreases rest.len(), 2int,
{
    match set {
        CharSet::A => if char_a_valid(c) {
            tok_cons(Unit::A(c), tok(rest, CharSet::A, None))
        } else {
            None
        },
        CharSet::B => if char_b_valid(c) {
            tok_cons(Unit::B(c), tok(rest, CharSet::B, None))
        } else {
            None
        },
        CharSet::C => if is_digit(c) {
            match pending {
                None => tok(rest, CharSet::C, Some(c)),
                Some(p) => tok_cons(Unit::C(p, c), tok(rest, CharSet::C, None)),
            }
        } else {
            None
        },
    }
}

/// Two prefixes in a row fold into one.
proof fn lemma_tok_append_twice(a: Seq<Unit>, b: Seq<Unit>, r: Option<Seq<Unit>>)
    ensures
        tok_append(a, tok_append(b, r)) == tok_append(a + b, r),
{
    match r {
        Some(us) => {
            assert(a + (b + us) =~= (a + b) + us);
        },
        None => {},
    }
}

/// The Code128 barcode type: the tokenized data units of one payload,
/// frozen at construction.
#[derive(Debug)]
pub struct Code128(Vec<Unit>);

impl View for Code128 {
    type V = Seq<Unit>;

    closed spec fn view(&self) -> Seq<Unit> {
        self.0@
    }
}

/// Every unit of the sequence exists in its tagged set's table.
pub open spec fn units_valid(us: Seq<Unit>) -> bool {
    forall|i: int| 0 <= i < us.len() ==> unit_valid(#[trigger] us[i])
}

impl Code128 {
    /// A barcode only ever comes out of a successful parse: it holds at
    /// least one unit, and every unit exists in its set's table.
    #[verifier::type_invariant]
    spec fn wf(self) -> bool {
        self.0@.len() > 0 && units_valid(self.0@)
    }

    /// Creates a new barcode.
    /// Returns Result<Code128, Error> indicating parse success.
    pub fn new(data: String) -> (r: Result<Code128, Error>)
        ensures
            match r {
                Ok(b) => tok(data@, CharSet::A, None) == Some(b@) && b@.len() > 0 && units_valid(
                    b@,
                ),
                Err(e) => match e {
                    Error::Character => tok(data@, CharSet::A, None) is None,
                    Error::Length => tok(data@, CharSet::A, None) == Some(Seq::<Unit>::empty()),
                },
            },
    {
        match Code128::parse(collect_chars(data.as_str())) {
            Ok(u) => Ok(Code128(u)),
            Err(e) => Err(e),
        }
    }

    // Tokenizes and collects the data into the appropriate character-sets.
    fn parse(chars: Vec<char>) -> (r: Result<Vec<Unit>, Error>)
        ensures
            match r {
                Ok(us) => tok(chars@, CharSet::A, None) == Some(us@) && us@.len() > 0
                    && units_valid(us@),
                Err(e) => match e {
                    Error::Character => tok(chars@, CharSet::A, None) is None,
                    Error::Length => tok(chars@, CharSet::A, None) == Some(Seq::<Unit>::empty()),
                },
            },
    {
        let n = chars.len();
        let mut i: usize = 0;
        let mut set = CharSet::A;
        let mut pending: Option<char> = None;
        let mut acc: Vec<Unit> = Vec::new();
        proof {
            assert(chars@.skip(0) =~= chars@);
            lemma_tok_append_empty(tok(chars@, CharSet::A, None));
        }
        while i < n
            invariant
                i <= n,
                n == chars@.len(),
                tok(chars@, CharSet::A, None) == tok_append(
                    acc@,
                    tok(chars@.skip(i as int), set, pending),
                ),
                units_valid(acc@),
                pending is Some ==> set == CharSet::C && is_digit(pending->0),
            decreases n - i,
        {
            let ghost rest = chars@.skip(i as int);
            proof {
                assert(rest[0] == chars@[i as int]);
            }
            let c = chars[i];
            if c == '\\' {
                if i + 1 == n {
                    // a lone trailing backslash
                    return Err(Error::Character);
                }
                proof {
                    assert(rest[1] == chars@[i as int + 1]);
                }
                let d = chars[i + 1];
                if d == 'a' || d == 'b' || d == 'c' {
                    if pending.is_some() {
                        // an odd run of set C digits ended by a directive
                        return Err(Error::Character);
                    }
                    proof {
                        assert(rest.skip(2) =~= chars@.skip(i as int + 2));
                    }
                    set = if d == 'a' {
                        CharSet::A
                    } else if d == 'b' {
                        CharSet::B
                    } else {
                        CharSet::C
                    };
                    i = i + 2;
                } else if d == '\\' {
                    // a doubled backslash encodes one literal backslash
                    proof {
                        assert(rest.skip(2) =~= chars@.skip(i as int + 2));
                        assert(tok(rest, set, pending) == tok_emit(
                            chars@.skip(i as int + 2),
                            set,
                            pending,
                            '\\',
                        ));
                    }
                    let ghost acc0 = acc@;
                    let ghost pending0 = pending;
                    let stepped = emit_char(acc, set, pending, '\\');
                    acc = stepped.0;
                    pending = stepped.1;
                    let ok = stepped.2;
                    proof {
                        step_emit(chars@, i as int + 2, set, pending0, '\\', acc0, acc@, pending, ok);
                    }
                    if !ok {
                        return Err(Error::Character);
                    }
                    i = i + 2;
                } else {
                    // an unrecognized escape directive
                    return Err(Error::Character);
                }
            } else {
                proof {
                    assert(rest.skip(1) =~= chars@.skip(i as int + 1));
                    assert(tok(rest, set, pending) == tok_emit(
                        chars@.skip(i as int + 1),
                        set,
                        pending,
                        c,
                    ));
                }
                let ghost acc0 = acc@;
                let ghost pending0 = pending;
                let stepped = emit_char(acc, set, pending, c);
                acc = stepped.0;
                pending = stepped.1;
                let ok = stepped.2;
                proof {
                    step_emit(chars@, i as int + 1, set, pending0, c, acc0, acc@, pending, ok);
                }
                if !ok {
                    return Err(Error::Character);
                }
                i = i + 1;
            }
        }
        proof {
            assert(chars@.skip(n as int) =~= Seq::<char>::empty());
        }
        if pending.is_some() {
            // an odd run of set C digits at the end of the input
            return Err(Error::Character);
        }
        if acc.len() == 0 {
            proof {
                assert(acc@ + Seq::<Unit>::empty() =~= acc@);
                assert(acc@ =~= Seq::<Unit>::empty());
            }
            return Err(Error::Length);
        }
        proof {
            assert(acc@ + Seq::<Unit>::empty() =~= acc@);
        }
        Ok(acc)
    }

    /// Returns the tokenized data as was passed into the constructor.
    pub fn raw_data(&self) -> (r: &[Unit])
        ensures
            r@ == self@,
    {
        self.0.as_slice()
    }

    /// Calculates the checksum unit using a modulo-103 algorithm.
    ///
    /// The checksum carries no character-set identity of its own: it is
    /// a raw value of the unified table, looked up there directly.
    pub fn checksum_unit(&self) -> (r: Option<u32>)
        ensures
            r matches Some(ck) && ck as int == barcode_checksum(self@) && ck <= 102,
    {
        Some(self.checksum_raw())
    }

    /// The weighted positional sum of the start code and every data
    /// unit, reduced modulo 103.
    fn checksum_raw(&self) -> (ck: u32)
        ensures
            ck as int == barcode_checksum(self@),
            ck <= 102,
    {
        proof {
            use_type_invariant(self);
        }
        let ghost us = self@;
        let s0 = set_of(&self.0[0]);
        let start = start_value_of(s0);
        let mut sum: u32 = (start as u32) % 103;
        let n = self.0.len();
        let mut idx: usize = 0;
        proof {
            assert(us.take(0) =~= Seq::<Unit>::empty());
        }
        while idx < n
            invariant
                idx <= n,
                n == us.len(),
                us == self@,
                us.len() > 0,
                units_valid(us),
                s0 == initial_set(us),
                sum < 103,
                sum as int == (start_value(s0) + weighted_sum(us.take(idx as int), 1)) % 103,
            decreases n - idx,
        {
            let u = &self.0[idx];
            let v = unit_value_of(u);
            let pos_m: usize = (idx + 1) % 103;
            proof {
                lemma_mod_bound(idx as int + 1, 103);
                assert((v as int) * (pos_m as int) <= 10404) by (nonlinear_arith)
                    requires
                        0 <= v as int <= 102,
                        0 <= pos_m as int <= 102,
                ;
            }
            let prod: u32 = (v as u32) * (pos_m as u32);
            let newsum: u32 = (sum + prod) % 103;
            proof {
                let i = idx as int;
                let a = start_value(s0) + weighted_sum(us.take(i), 1);
                assert(us.take(i + 1) =~= us.take(i).push(us[i]));
                lemma_weighted_sum_snoc(us.take(i), us[i], 1);
                lemma_add_mod_noop_right(sum as int, (v as int) * ((i + 1) % 103), 103);
                lemma_mul_mod_noop_right(v as int, i + 1, 103);
                lemma_add_mod_noop(a, (v as int) * (i + 1), 103);
            }
            sum = newsum;
            idx = idx + 1;
        }
        proof {
            assert(us.take(n as int) =~= us);
        }
        sum
    }

    /// The 11-module pattern of the checksum, looked up by its unified
    /// value.
    fn checksum_encoding(&self) -> (r: Vec<u8>)
        ensures
            r@ == pattern_of(barcode_checksum(self@)),
    {
        let ck = self.checksum_raw();
        let w = lookup_pattern(ck as u8);
        let mut out: Vec<u8> = Vec::new();
        push_bits(&mut out, w, 11);
        proof {
            assert(Seq::<u8>::empty() + bits_of(w, 11) =~= bits_of(w, 11));
        }
        out
    }

    /// Looks up the 11-module pattern of a unit in the table of its
    /// tagged set.
    fn unit_encoding(&self, c: &Unit) -> (r: Vec<u8>)
        requires
            unit_valid(*c),
        ensures
            r@ == pattern_of(unit_value(*c)),
    {
        let v = unit_value_of(c);
        let w = lookup_pattern(v);
        let mut out: Vec<u8> = Vec::new();
        push_bits(&mut out, w, 11);
        proof {
            assert(Seq::<u8>::empty() + bits_of(w, 11) =~= bits_of(w, 11));
        }
        out
    }

    /// Appends an already-rendered pattern to the module stream `into`.
    fn push_encoding(&self, into: &mut Vec<u8>, from: &Vec<u8>)
        ensures
            final(into)@ == old(into)@ + from@,
    {
        let n = from.len();
        let mut i: usize = 0;
        while i < n
            invariant
                i <= n,
                n == from@.len(),
                into@ == old(into)@ + from@.take(i as int),
            decreases n - i,
        {
            let b = from[i];
            proof {
                assert(old(into)@ + from@.take(i as int + 1) =~= (old(into)@ + from@.take(
                    i as int,
                )).push(from@[i as int]));
            }
            into.push(b);
            i = i + 1;
        }
        proof {
            assert(from@.take(n as int) =~= from@);
        }
    }

    /// The symbol stream before the stop pattern: start code, data units
    /// with their switch codes, checksum.
    fn payload(&self) -> (enc: Vec<u8>)
        ensures
            enc@ == pattern_of(start_value(initial_set(self@))) + data_modules(
                self@,
                initial_set(self@),
            ) + pattern_of(barcode_checksum(self@)),
    {
        proof {
            use_type_invariant(self);
        }
        let ghost us = self@;
        let mut enc: Vec<u8> = Vec::new();
        let s0 = set_of(&self.0[0]);
        let start = start_value_of(s0);
        let w0 = lookup_pattern(start);
        push_bits(&mut enc, w0, 11);
        proof {
            assert(Seq::<u8>::empty() + bits_of(w0, 11) =~= bits_of(w0, 11));
            assert(us.skip(0) =~= us);
        }
        let mut cur = s0;
        let mut i: usize = 0;
        let n = self.0.len();
        while i < n
            invariant
                i <= n,
                n == us.len(),
                us == self@,
                us.len() > 0,
                units_valid(us),
                s0 == initial_set(us),
                enc@ + data_modules(us.skip(i as int), cur) == pattern_of(start_value(s0))
                    + data_modules(us, s0),
            decreases n - i,
        {
            let u = &self.0[i];
            let s = set_of(u);
            proof {
                assert(us.skip(i as int)[0] == us[i as int]);
                assert(us.skip(i as int).skip(1) =~= us.skip(i as int + 1));
            }
            let ghost enc0 = enc@;
            let ghost swseq: Seq<u8> = if s == cur {
                Seq::empty()
            } else {
                pattern_of(switch_value(s))
            };
            if s == cur {
            } else {
                let sw = switch_value_of(s);
                let wsw = lookup_pattern(sw);
                push_bits(&mut enc, wsw, 11);
            }
            let enc_u = self.unit_encoding(u);
            self.push_encoding(&mut enc, &enc_u);
            proof {
                let rest = data_modules(us.skip(i as int + 1), s);
                assert(data_modules(us.skip(i as int), cur) == swseq + pattern_of(
                    unit_value(us[i as int]),
                ) + rest);
                assert(enc@ =~= (enc0 + swseq) + pattern_of(unit_value(us[i as int])));
                assert(((enc0 + swseq) + pattern_of(unit_value(us[i as int]))) + rest =~= enc0 + (
                swseq + pattern_of(unit_value(us[i as int])) + rest));
            }
            cur = s;
            i = i + 1;
        }
        proof {
            assert(us.skip(n as int) =~= Seq::<Unit>::empty());
            assert(enc@ + Seq::<u8>::empty() =~= enc@);
        }
        let ck = self.checksum_encoding();
        self.push_encoding(&mut enc, &ck);
        enc
    }

    /// Encodes the barcode.
    /// Returns a Vec<u8> of binary digits.
    pub fn encode(&self) -> (r: Vec<u8>)
        ensures
            r@ == encoded_modules(self@),
    {
        let mut enc = self.payload();
        let ws = stop_code();
        push_bits(&mut enc, ws, 13);
        enc.push(0u8);
        proof {
            assert(enc@ =~= encoded_modules(self@));
        }
        enc
    }
}

/// The character set a unit is tagged with.
pub fn set_of(u: &Unit) -> (s: CharSet)
    ensures
        s == unit_set(*u),
{
    match u {
        Unit::A(_) => CharSet::A,
        Unit::B(_) => CharSet::B,
        Unit::C(_, _) => CharSet::C,
    }
}

/// The unified symbol value of a valid unit.
pub fn unit_value_of(u: &Unit) -> (v: u8)
    requires
        unit_valid(*u),
    ensures
        v as int == unit_value(*u),
        v <= 102,
{
    match u {
        Unit::A(c) => {
            let code = *c as u32;
            if code >= 32 {
                (code - 32) as u8
            } else {
                (code + 64) as u8
            }
        },
        Unit::B(c) => ((*c as u32) - 32) as u8,
        Unit::C(d1, d2) => (((*d1 as u32) - 48) * 10 + ((*d2 as u32) - 48)) as u8,
    }
}

/// The unified start code value of character set `s`.
fn start_value_of(s: CharSet) -> (v: u8)
    ensures
        v as int == start_value(s),
{
    match s {
        CharSet::A => 103,
        CharSet::B => 104,
        CharSet::C => 105,
    }
}

/// The unified switch code value that makes `s` the active set.
fn switch_value_of(s: CharSet) -> (v: u8)
    ensures
        v as int == switch_value(s),
{
    match s {
        CharSet::A => 101,
        CharSet::B => 100,
        CharSet::C => 99,
    }
}

/// Appending one unit adds its value, weighted one past the end.
proof fn lemma_weighted_sum_snoc(us: Seq<Unit>, u: Unit, pos: int)
    ensures
        weighted_sum(us.push(u), pos) == weighted_sum(us, pos) + unit_value(u) * (pos + us.len()),
    decreases us.len(),
{
    if us.len() == 0 {
        assert(us.push(u)[0] == u);
        assert(us.push(u).skip(1) =~= Seq::<Unit>::empty());
        assert(weighted_sum(us.push(u), pos) == unit_value(u) * pos + weighted_sum(
            Seq::<Unit>::empty(),
            pos + 1,
        ));
    } else {
        assert(us.push(u)[0] == us[0]);
        assert(us.push(u).skip(1) =~= us.skip(1).push(u));
        lemma_weighted_sum_snoc(us.skip(1), u, pos + 1);
        assert(weighted_sum(us.push(u), pos) == unit_value(us[0]) * pos + weighted_sum(
            us.skip(1).push(u),
            pos + 1,
        ));
        assert((pos + 1) + us.skip(1).len() == pos + us.len());
    }
}

/// Collects the characters of `data` in order.
fn collect_chars(data: &str) -> (r: Vec<char>)
    ensures
        r@ == data@,
{
    let n = data.unicode_len();
    let mut out: Vec<char> = Vec::new();
    let mut i: usize = 0;
    while i < n
        invariant
            i <= n,
            n == data@.len(),
            out@ == data@.take(i as int),
        decreases n - i,
    {
        let c = data.get_char(i);
        proof {
            assert(data@.take(i as int).push(data@[i as int]) =~= data@.take(i as int + 1));
        }
        out.push(c);
        i = i + 1;
    }
    proof {
        assert(data@.take(n as int) =~= data@);
    }
    out
}

/// Consumes one data character in the active set: pushes the unit it
/// completes (or holds a first set C digit until its partner arrives),
/// or reports that the character is not encodable there.
fn emit_char(units: Vec<Unit>, set: CharSet, pending: Option<char>, c: char) -> (r: (
    Vec<Unit>,
    Option<char>,
    bool,
))
    requires
        pending is Some ==> set == CharSet::C && is_digit(pending->0),
    ensures
        !r.2 ==> r.0@ == units@ && (forall|rest: Seq<char>|
            #[trigger] tok_emit(rest, set, pending, c) is None),
        r.2 ==> {
            &&& units@.len() <= r.0@.len()
            &&& r.0@.take(units@.len() as int) == units@
            &&& units_valid(r.0@.skip(units@.len() as int))
            &&& (r.1 is Some ==> set == CharSet::C && is_digit(r.1->0))
            &&& (forall|rest: Seq<char>|
                #[trigger] tok_emit(rest, set, pending, c) == tok_append(
                    r.0@.skip(units@.len() as int),
                    tok(rest, set, r.1),
                ))
        },
{
    let mut acc = units;
    let ghost len0 = acc@.len() as int;
    match set {
        CharSet::A => {
            if (c as u32) <= 95 {
                acc.push(Unit::A(c));
                proof {
                    assert(acc@.take(len0) =~= units@);
                    assert(acc@.skip(len0) =~= seq![Unit::A(c)]);
                    assert forall|rest: Seq<char>|
                        #[trigger] tok_emit(rest, set, pending, c) == tok_append(
                            acc@.skip(len0),
                            tok(rest, set, None::<char>),
                        ) by {
                        assert(tok_emit(rest, set, pending, c) == tok_cons(
                            Unit::A(c),
                            tok(rest, CharSet::A, None),
                        ));
                    }
                }
                (acc, None, true)
            } else {
                (acc, pending, false)
            }
        },
        CharSet::B => {
            let code = c as u32;
            if 32 <= code && code <= 127 {
                acc.push(Unit::B(c));
                proof {
                    assert(acc@.take(len0) =~= units@);
                    assert(acc@.skip(len0) =~= seq![Unit::B(c)]);
                    assert forall|rest: Seq<char>|
                        #[trigger] tok_emit(rest, set, pending, c) == tok_append(
                            acc@.skip(len0),
                            tok(rest, set, None::<char>),
                        ) by {
                        assert(tok_emit(rest, set, pending, c) == tok_cons(
                            Unit::B(c),
                            tok(rest, CharSet::B, None),
                        ));
                    }
                }
                (acc, None, true)
            } else {
                (acc, pending, false)
            }
        },
        CharSet::C => {
            let code = c as u32;
            if 48 <= code && code <= 57 {
                if pending.is_some() {
                    let p = unwrap_char(pending);
                    acc.push(Unit::C(p, c));
                    proof {
                        assert(pending == Some(p));
                        assert(acc@.take(len0) =~= units@);
                        assert(acc@.skip(len0) =~= seq![Unit::C(p, c)]);
                        assert forall|rest: Seq<char>|
                            #[trigger] tok_emit(rest, set, pending, c) == tok_append(
                                acc@.skip(len0),
                                tok(rest, set, None::<char>),
                            ) by {
                            assert(tok_emit(rest, set, pending, c) == tok_cons(
                                Unit::C(p, c),
                                tok(rest, CharSet::C, None),
                            ));
                        }
                    }
                    (acc, None, true)
                } else {
                    proof {
                        assert(acc@.take(len0) =~= units@);
                        assert(acc@.skip(len0) =~= Seq::<Unit>::empty());
                        assert forall|rest: Seq<char>|
                            #[trigger] tok_emit(rest, set, pending, c) == tok_append(
                                acc@.skip(len0),
                                tok(rest, set, Some(c)),
                            ) by {
                            assert(tok_emit(rest, set, pending, c) == tok(
                                rest,
                                CharSet::C,
                                Some(c),
                            ));
                            assert(Seq::<Unit>::empty() + us_of(tok(rest, set, Some(c))) =~= us_of(
                                tok(rest, set, Some(c)),
                            ));
                        }
                    }
                    (acc, Some(c), true)
                }
            } else {
                (acc, pending, false)
            }
        },
    }
}

/// The digit a set C pair is waiting on.
fn unwrap_char(held: Option<char>) -> (p: char)
    requires
        held is Some,
    ensures
        p == held->0,
{
    match held {
        Some(p) => p,
        None => ' ',
    }
}

/// The units of a successful tokenization (the empty sequence otherwise).
spec fn us_of(r: Option<Seq<Unit>>) -> Seq<Unit> {
    match r {
        Some(us) => us,
        None => Seq::empty(),
    }
}

/// Carries the parse loop's invariant over one emitted data character.
proof fn step_emit(
    chars: Seq<char>,
    j: int,
    set: CharSet,
    pending0: Option<char>,
    c: char,
    acc0: Seq<Unit>,
    acc1: Seq<Unit>,
    pending1: Option<char>,
    ok: bool,
)
    requires
        0 <= j <= chars.len(),
        units_valid(acc0),
        ok ==> acc0.len() <= acc1.len() && acc1.take(acc0.len() as int) == acc0 && units_valid(
            acc1.skip(acc0.len() as int),
        ) && (forall|rest: Seq<char>|
            #[trigger] tok_emit(rest, set, pending0, c) == tok_append(
                acc1.skip(acc0.len() as int),
                tok(rest, set, pending1),
            )),
    ensures
        ok ==> tok_append(acc0, tok_emit(chars.skip(j), set, pending0, c)) == tok_append(
            acc1,
            tok(chars.skip(j), set, pending1),
        ),
        ok ==> units_valid(acc1),
{
    if ok {
        let rest = chars.skip(j);
        let delta = acc1.skip(acc0.len() as int);
        lemma_tok_append_twice(acc0, delta, tok(rest, set, pending1));
        assert(acc0 + delta =~= acc1);
        assert forall|k: int| 0 <= k < acc1.len() implies unit_valid(#[trigger] acc1[k]) by {
            if k < acc0.len() {
                assert(acc1[k] == acc0[k]);
            } else {
                assert(acc1[k] == delta[k - acc0.len()]);
                assert(unit_valid(delta[k - acc0.len()]));
            }
        }
    }
}

/// Every module of a bit sequence is a 0 or a 1.
pub open spec fn all_binary(s: Seq<u8>) -> bool {
    forall|i: int| 0 <= i < s.len() ==> s[i] == 0 || s[i] == 1
}

/// Binary modules stay binary under concatenation.
proof fn lemma_all_binary_concat(a: Seq<u8>, b: Seq<u8>)
    requires
        all_binary(a),
        all_binary(b),
    ensures
        all_binary(a + b),
{
    assert forall|i: int| 0 <= i < (a + b).len() implies ((a + b)[i] == 0 || (a + b)[i] == 1) by {
        if i < a.len() {
            assert((a + b)[i] == a[i]);
        } else {
            assert((a + b)[i] == b[i - a.len()]);
        }
    }
}

/// A symbol pattern holds 11 modules, each 0 or 1.
proof fn lemma_pattern_shape(v: int)
    ensures
        pattern_of(v).len() == 11,
        all_binary(pattern_of(v)),
{
    lemma_bits_binary(pattern_bits(v), 11);
}

/// The data section holds 11 modules for every unit and every switch
/// code, each module 0 or 1.
proof fn lemma_data_modules_shape(us: Seq<Unit>, cur: CharSet)
    ensures
        data_modules(us, cur).len() == 11 * (us.len() + switch_count(us, cur)),
        all_binary(data_modules(us, cur)),
    decreases us.len(),
{
    if us.len() > 0 {
        let s = unit_set(us[0]);
        let switch: Seq<u8> = if s == cur {
            Seq::empty()
        } else {
            pattern_of(switch_value(s))
        };
        lemma_pattern_shape(switch_value(s));
        lemma_pattern_shape(unit_value(us[0]));
        lemma_data_modules_shape(us.skip(1), s);
        lemma_all_binary_concat(switch, pattern_of(unit_value(us[0])));
        lemma_all_binary_concat(
            switch + pattern_of(unit_value(us[0])),
            data_modules(us.skip(1), s),
        );
    }
}

/// The encoding of every barcode the tokenizer accepts holds exactly
/// `11 * (1 + n_units + n_switches + 1) + 13 + 1` modules — the start
/// code, each data unit, each switch code and the checksum at 11
/// modules apiece, the 13-module stop pattern, one termination module —
/// and every module is a 0 or a 1.
pub proof fn lemma_encoded_shape(us: Seq<Unit>)
    requires
        us.len() > 0,
        units_valid(us),
    ensures
        encoded_modules(us).len() == 11 * (1 + us.len() + switch_count(us, initial_set(us)) + 1)
            + 13 + 1,
        all_binary(encoded_modules(us)),
{
    let s0 = initial_set(us);
    let head = pattern_of(start_value(s0));
    let data = data_modules(us, s0);
    let ck = pattern_of(barcode_checksum(us));
    lemma_pattern_shape(start_value(s0));
    lemma_data_modules_shape(us, s0);
    lemma_pattern_shape(barcode_checksum(us));
    lemma_bits_binary(stop_bits(), 13);
    assert(all_binary(seq![0u8])) by {
        assert(seq![0u8][0] == 0);
    }
    lemma_all_binary_concat(head, data);
    lemma_all_binary_concat(head + data, ck);
    lemma_all_binary_concat(head + data + ck, stop_pattern());
    lemma_all_binary_concat(head + data + ck + stop_pattern(), seq![0u8]);
}

/// The weighted sum of valid units at a nonnegative position is
/// nonnegative.
proof fn lemma_weighted_sum_nonneg(us: Seq<Unit>, pos: int)
    requires
        pos >= 0,
        units_valid(us),
    ensures
        weighted_sum(us, pos) >= 0,
    decreases us.len(),
{
    if us.len() > 0 {
        assert(unit_valid(us[0]));
        assert forall|i: int| 0 <= i < us.skip(1).len() implies unit_valid(
            #[trigger] us.skip(1)[i],
        ) by {
            assert(us.skip(1)[i] == us[i + 1]);
        }
        lemma_weighted_sum_nonneg(us.skip(1), pos + 1);
        assert(unit_value(us[0]) * pos >= 0) by (nonlinear_arith)
            requires
                unit_value(us[0]) >= 0,
                pos >= 0,
        ;
    }
}

/// Checksum determinism: the checksum is a pure function of the unit
/// sequence and the start value, so identical inputs always yield the
/// identical value.
pub proof fn lemma_checksum_deterministic(us1: Seq<Unit>, us2: Seq<Unit>, start1: int, start2: int)
    requires
        us1 == us2,
        start1 == start2,
    ensures
        checksum_value(us1, start1) == checksum_value(us2, start2),
{
}

/// The checksum of a valid unit sequence lies in 0..=102.
pub proof fn lemma_checksum_range(us: Seq<Unit>, start: int)
    requires
        start >= 0,
        units_valid(us),
    ensures
        0 <= checksum_value(us, start) <= 102,
{
    lemma_weighted_sum_nonneg(us, 1);
    lemma_mod_bound(start + weighted_sum(us, 1), 103);
}

/// Encoding is idempotent: the module stream is a function of the
/// frozen unit sequence alone, so encoding the same barcode twice
/// yields bit-identical output.
pub proof fn lemma_encode_idempotent(us1: Seq<Unit>, us2: Seq<Unit>)
    requires
        us1 == us2,
    ensures
        encoded_modules(us1) == encoded_modules(us2),
{
}

/// Appending to nothing changes nothing.
proof fn lemma_tok_append_empty(r: Option<Seq<Unit>>)
    ensures
        tok_append(Seq::empty(), r) == r,
{
    match r {
        Some(us) => {
            assert(Seq::empty() + us =~= us);
        },
        None => {},
    }
}

} // verus!
