use vstd::prelude::*;
use crate::errors::ServiceError;

verus! {

/// Value of a hexadecimal digit character; 16 when the character is not a
/// hex digit.
pub open spec fn hex_val(c: char) -> int {
    if 48 <= c as int && c as int <= 57 {
        c as int - 48
    } else if 97 <= c as int && c as int <= 102 {
        10 + (c as int - 97)
    } else if 65 <= c as int && c as int <= 70 {
        10 + (c as int - 65)
    } else {
        16
    }
}

pub open spec fn is_hex_digit(c: char) -> bool {
    hex_val(c) < 16
}

/// A textual store identifier is exactly 24 hexadecimal digits, in either
/// case.  This is the full acceptance condition of the store's id parser.
pub open spec fn is_valid_object_id_text(s: Seq<char>) -> bool {
    s.len() == 24 && (forall|i: int| 0 <= i < s.len() ==> is_hex_digit(#[trigger] s[i]))
}

/// The lower-case character of a hex digit value.
pub open spec fn lower_hex_char(v: int) -> char {
    if v == 0 { '0' }
    else if v == 1 { '1' }
    else if v == 2 { '2' }
    else if v == 3 { '3' }
    else if v == 4 { '4' }
    else if v == 5 { '5' }
    else if v == 6 { '6' }
    else if v == 7 { '7' }
    else if v == 8 { '8' }
    else if v == 9 { '9' }
    else if v == 10 { 'a' }
    else if v == 11 { 'b' }
    else if v == 12 { 'c' }
    else if v == 13 { 'd' }
    else if v == 14 { 'e' }
    else if v == 15 { 'f' }
    else { '?' }
}

/// The canonical (lower-case) form of a run of hex digits.
pub open spec fn canon_text(s: Seq<char>) -> Seq<char> {
    Seq::new(s.len(), |i: int| lower_hex_char(hex_val(s[i])))
}

/// A canonical identifier text: 24 hex digits, all lower case.
pub open spec fn is_canonical_id(s: Seq<char>) -> bool {
    is_valid_object_id_text(s) && s == canon_text(s)
}

/// A store identifier, held in its canonical textual form: 24 lower-case
/// hexadecimal digits, the exact shape the store assigns and prints.
#[derive(Debug)]
pub struct RecordId {
    hex: String,
}

impl View for RecordId {
    type V = Seq<char>;

    closed spec fn view(&self) -> Seq<char> {
        self.hex@
    }
}

impl Clone for RecordId {
    fn clone(&self) -> (r: Self)
        ensures
            r == *self,
    {
        RecordId { hex: self.hex.clone() }
    }
}

impl RecordId {
    pub open spec fn wf(&self) -> bool {
        is_canonical_id(self@)
    }

    /// The canonical string form of the identifier, as the store prints it.
    pub fn to_hex(&self) -> (r: String)
        ensures
            r@ == self@,
    {
        self.hex.clone()
    }

    /// Whether two identifiers denote the same record.
    pub fn same_id(&self, other: &RecordId) -> (r: bool)
        ensures
            r == (self@ == other@),
    {
        self.hex == other.hex
    }
}

/// Hex digit value of a character, when it has one.
fn hex_digit_value(c: char) -> (r: Option<u8>)
    ensures
        match r {
            Some(d) => d as int == hex_val(c) && is_hex_digit(c),
            None => !is_hex_digit(c),
        },
{
    let u = c as u32;
    if 48 <= u && u <= 57 {
        Some((u - 48) as u8)
    } else if 97 <= u && u <= 102 {
        Some((u - 97 + 10) as u8)
    } else if 65 <= u && u <= 70 {
        Some((u - 65 + 10) as u8)
    } else {
        None
    }
}

/// The one-character string of a hex digit value, lower case.
fn hex_char_str(d: u8) -> (r: &'static str)
    requires
        d < 16,
    ensures
        r@.len() == 1,
        r@[0] == lower_hex_char(d as int),
{
    if d == 0 { proof { reveal_strlit("0"); } "0" }
    else if d == 1 { proof { reveal_strlit("1"); } "1" }
    else if d == 2 { proof { reveal_strlit("2"); } "2" }
    else if d == 3 { proof { reveal_strlit("3"); } "3" }
    else if d == 4 { proof { reveal_strlit("4"); } "4" }
    else if d == 5 { proof { reveal_strlit("5"); } "5" }
    else if d == 6 { proof { reveal_strlit("6"); } "6" }
    else if d == 7 { proof { reveal_strlit("7"); } "7" }
    else if d == 8 { proof { reveal_strlit("8"); } "8" }
    else if d == 9 { proof { reveal_strlit("9"); } "9" }
    else if d == 10 { proof { reveal_strlit("a"); } "a" }
    else if d == 11 { proof { reveal_strlit("b"); } "b" }
    else if d == 12 { proof { reveal_strlit("c"); } "c" }
    else if d == 13 { proof { reveal_strlit("d"); } "d" }
    else if d == 14 { proof { reveal_strlit("e"); } "e" }
    else { proof { reveal_strlit("f"); } "f" }
}

/// A hex digit survives canonicalisation: canonical form is idempotent.
proof fn lemma_hex_roundtrip()
    ensures
        forall|v: int| 0 <= v < 16 ==> #[trigger] hex_val(lower_hex_char(v)) == v,
{
}

/// Parse a textual identifier as the store's id parser does: any string of
/// exactly 24 hex digits is accepted, anything else is rejected as
/// [`ServiceError::InvalidIdentifier`].  The accepted identifier is held in
/// canonical lower-case form.
pub fn parse_object_id(s: &str) -> (r: Result<RecordId, ServiceError>)
    ensures
        match r {
            Ok(id) => is_valid_object_id_text(s@) && id@ == canon_text(s@) && id.wf(),
            Err(e) => !is_valid_object_id_text(s@) && e matches ServiceError::InvalidIdentifier,
        },
{
    let n = s.unicode_len();
    if n != 24 {
        return Err(ServiceError::InvalidIdentifier);
    }
    let mut out = String::new();
    let mut i: usize = 0;
    while i < 24
        invariant
            s@.len() == 24,
            i <= 24,
            out@.len() == i as int,
            forall|j: int| 0 <= j < i as int ==> is_hex_digit(#[trigger] s@[j]),
            forall|j: int| 0 <= j < i as int ==> #[trigger] out@[j] == lower_hex_char(
                hex_val(s@[j]),
            ),
        decreases 24 - i,
    {
        let c = s.get_char(i);
        match hex_digit_value(c) {
            None => {
                return Err(ServiceError::InvalidIdentifier);
            },
            Some(d) => {
                out.append(hex_char_str(d));
            },
        }
        i += 1;
    }
    proof {
        lemma_hex_roundtrip();
        assert(out@ =~= canon_text(s@));
        assert(canon_text(out@) =~= canon_text(s@));
    }
    Ok(RecordId { hex: out })
}

/// Nibble `k` (from the least significant end) of a 64-bit serial.
pub open spec fn nib(n: u64, k: u64) -> u64 {
    (n >> ((4 * k) as u64)) & 0xf
}

/// The canonical identifier text the model store assigns to serial `n`:
/// eight zero characters followed by the sixteen hex digits of `n`,
/// most significant first.
pub open spec fn serial_id_text(n: u64) -> Seq<char> {
    Seq::new(
        24,
        |i: int| if i < 8 { '0' } else { lower_hex_char(nib(n, (23 - i) as u64) as int) },
    )
}

proof fn lemma_nib_bound(n: u64, k: u64)
    ensures
        nib(n, k) < 16,
{
    let s = (4 * k) as u64;
    assert((n >> s) & 0xf < 16) by (bit_vector);
}

/// The identifier text was assigned by the model store under some serial
/// below `bound`.
pub open spec fn store_assigned(idt: Seq<char>, bound: int) -> bool {
    exists|s: u64| (s as int) < bound && idt == serial_id_text(s)
}

/// An identifier assigned under a bound stays assigned under any larger
/// bound.
pub proof fn lemma_store_assigned_mono(idt: Seq<char>, b0: int, b1: int)
    requires
        store_assigned(idt, b0),
        b0 <= b1,
    ensures
        store_assigned(idt, b1),
{
    let s = choose|s: u64| (s as int) < b0 && idt == serial_id_text(s);
    assert((s as int) < b1 && idt == serial_id_text(s));
}

/// Distinct serials yield distinct identifier texts.
pub proof fn lemma_serial_id_injective(a: u64, b: u64)
    requires
        serial_id_text(a) == serial_id_text(b),
    ensures
        a == b,
{
    lemma_hex_roundtrip();
    assert forall|k: u64| k < 16 implies nib(a, k) == nib(b, k) by {
        let i = 23 - k as int;
        assert(8 <= i < 24);
        assert((23 - i) as u64 == k);
        assert(serial_id_text(a)[i] == serial_id_text(b)[i]);
        assert(serial_id_text(a)[i] == lower_hex_char(nib(a, (23 - i) as u64) as int));
        assert(serial_id_text(b)[i] == lower_hex_char(nib(b, (23 - i) as u64) as int));
        assert(lower_hex_char(nib(a, k) as int) == lower_hex_char(nib(b, k) as int));
        lemma_nib_bound(a, k);
        lemma_nib_bound(b, k);
        assert(hex_val(lower_hex_char(nib(a, k) as int)) == nib(a, k) as int);
        assert(hex_val(lower_hex_char(nib(b, k) as int)) == nib(b, k) as int);
    }
    assert(nib(a, 0) == nib(b, 0));
    assert(nib(a, 1) == nib(b, 1));
    assert(nib(a, 2) == nib(b, 2));
    assert(nib(a, 3) == nib(b, 3));
    assert(nib(a, 4) == nib(b, 4));
    assert(nib(a, 5) == nib(b, 5));
    assert(nib(a, 6) == nib(b, 6));
    assert(nib(a, 7) == nib(b, 7));
    assert(nib(a, 8) == nib(b, 8));
    assert(nib(a, 9) == nib(b, 9));
    assert(nib(a, 10) == nib(b, 10));
    assert(nib(a, 11) == nib(b, 11));
    assert(nib(a, 12) == nib(b, 12));
    assert(nib(a, 13) == nib(b, 13));
    assert(nib(a, 14) == nib(b, 14));
    assert(nib(a, 15) == nib(b, 15));
    assert(((a >> 0u64) & 0xf == (b >> 0u64) & 0xf && (a >> 4u64) & 0xf == (b >> 4u64) & 0xf
        && (a >> 8u64) & 0xf == (b >> 8u64) & 0xf && (a >> 12u64) & 0xf == (b >> 12u64) & 0xf
        && (a >> 16u64) & 0xf == (b >> 16u64) & 0xf && (a >> 20u64) & 0xf == (b >> 20u64) & 0xf
        && (a >> 24u64) & 0xf == (b >> 24u64) & 0xf && (a >> 28u64) & 0xf == (b >> 28u64) & 0xf
        && (a >> 32u64) & 0xf == (b >> 32u64) & 0xf && (a >> 36u64) & 0xf == (b >> 36u64) & 0xf
        && (a >> 40u64) & 0xf == (b >> 40u64) & 0xf && (a >> 44u64) & 0xf == (b >> 44u64) & 0xf
        && (a >> 48u64) & 0xf == (b >> 48u64) & 0xf && (a >> 52u64) & 0xf == (b >> 52u64) & 0xf
        && (a >> 56u64) & 0xf == (b >> 56u64) & 0xf && (a >> 60u64) & 0xf == (b >> 60u64) & 0xf)
        ==> a == b) by (bit_vector);
}

/// Build the identifier the model store assigns to serial `n`.
pub fn id_from_serial(n: u64) -> (r: RecordId)
    ensures
        r@ == serial_id_text(n),
        r.wf(),
{
    let mut out = String::from_str("00000000");
    proof {
        reveal_strlit("00000000");
    }
    let mut k: usize = 0;
    while k < 16
        invariant
            k <= 16,
            out@.len() == 8 + k as int,
            forall|j: int| 0 <= j < 8 ==> #[trigger] out@[j] == '0',
            forall|j: int| 8 <= j < 8 + k as int ==> #[trigger] out@[j] == lower_hex_char(
                nib(n, (23 - j) as u64) as int,
            ),
        decreases 16 - k,
    {
        let shift: u64 = 4 * (15 - k as u64);
        let d = ((n >> shift) & 0xf) as u8;
        proof {
            let kk = (15 - k) as u64;
            lemma_nib_bound(n, kk);
            assert(nib(n, kk) == (n >> shift) & 0xf);
            assert((n >> shift) & 0xf <= 0xf) by (bit_vector);
        }
        out.append(hex_char_str(d));
        k += 1;
    }
    proof {
        lemma_hex_roundtrip();
        assert forall|k2: u64| k2 < 16 implies nib(n, k2) < 16 by {
            lemma_nib_bound(n, k2);
        }
        assert(out@ =~= serial_id_text(n));
        assert(canon_text(out@) =~= out@);
    }
    RecordId { hex: out }
}

} // verus!
