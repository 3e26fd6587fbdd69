//! Which property lists hold a date that cannot be read.
//!
//! `plist` reads dates into the years 0 to 9999. It refuses most others with an
//! error, but two kinds make it panic: a date in XML whose offset takes it out of
//! these years, and a date in a binary list that lies before year 0. Both are told
//! here from the bytes of a list, so that such a list is never handed to it.
use vstd::prelude::*;
use vstd::slice::slice_subrange;

verus! {

// ---------------------------------------------------------------- dates in XML

/// The two decimal digits at a place, as a number.
pub open spec fn two_digits(text: Seq<u8>, at: int) -> int {
    (text[at] - '0' as u8) * 10 + (text[at + 1] - '0' as u8)
}

/// Whether there are two decimal digits at a place.
pub open spec fn has_two_digits(text: Seq<u8>, at: int) -> bool {
    '0' <= text[at] as char <= '9' && '0' <= text[at + 1] as char <= '9'
}

/// The last day that can be read, and the first.
pub const LAST_DAY: &'static str = "9999-12-31";

pub const FIRST_DAY: &'static str = "0000-01-01";

/// Whether bytes and a text agree as far as both go.
pub open spec fn agrees(bytes: Seq<u8>, text: Seq<char>) -> bool {
    forall|i: int| 0 <= i < bytes.len() && i < text.len() ==> #[trigger] bytes[i] as char == text[i]
}

/// Whether a date and time with an offset lies outside the years 0 to 9999 once
/// the offset is taken off: it is on the last day and the offset leads past its
/// end, or on the first day and the offset leads before its start. The time of day
/// is at the twelfth byte and the offset is the last six bytes.
pub open spec fn leaves_range(text: Seq<u8>) -> bool {
    let n = text.len() as int;
    &&& n >= 25
    &&& has_two_digits(text, 11) && has_two_digits(text, 14)
    &&& has_two_digits(text, n - 5) && has_two_digits(text, n - 2)
    &&& {
        let time = two_digits(text, 11) * 60 + two_digits(text, 14);
        let offset = two_digits(text, n - 5) * 60 + two_digits(text, n - 2);
        ||| agrees(text, LAST_DAY@) && text[n - 6] == '-' as u8 && time + offset >= 1440
        ||| agrees(text, FIRST_DAY@) && text[n - 6] == '+' as u8 && time < offset
    }
}

/// Whether a text can be the start of one that leaves the range.
pub open spec fn may_leave_range(text: Seq<u8>) -> bool {
    agrees(text, LAST_DAY@) || agrees(text, FIRST_DAY@)
}

fn agrees_with(bytes: &[u8], text: &str) -> (r: bool)
    ensures
        r == agrees(bytes@, text@),
{
    let len: usize = text.unicode_len();
    let mut i: usize = 0;
    while i < bytes.len() && i < len
        invariant
            len == text@.len(),
            forall|k: int| 0 <= k < i ==> bytes@[k] as char == text@[k],
        decreases bytes.len() - i,
    {
        if bytes[i] as char != text.get_char(i) {
            assert(bytes@[i as int] as char != text@[i as int]);
            return false;
        }
        i += 1;
    }
    true
}

fn text_may_leave_range(text: &[u8]) -> (r: bool)
    ensures
        r == may_leave_range(text@),
{
    agrees_with(text, LAST_DAY) || agrees_with(text, FIRST_DAY)
}

/// The two decimal digits at a place, where there are any.
fn digits_at(text: &[u8], at: usize) -> (r: Option<u32>)
    requires
        at + 1 < text.len(),
    ensures
        match r {
            Some(n) => has_two_digits(text@, at as int) && n == two_digits(text@, at as int),
            None => !has_two_digits(text@, at as int),
        },
{
    let (a, b) = (text[at], text[at + 1]);
    if '0' <= a as char && a as char <= '9' && '0' <= b as char && b as char <= '9' {
        Some((a - '0' as u8) as u32 * 10 + (b - '0' as u8) as u32)
    } else {
        None
    }
}

fn date_leaves_range(text: &[u8]) -> (r: bool)
    ensures
        r == leaves_range(text@),
{
    let n: usize = text.len();
    if n < 25 {
        return false;
    }
    match (digits_at(text, 11), digits_at(text, 14), digits_at(text, n - 5), digits_at(text, n - 2)) {
        (Some(hour), Some(minute), Some(offset_hour), Some(offset_minute)) => {
            let time: u32 = hour * 60 + minute;
            let offset: u32 = offset_hour * 60 + offset_minute;
            (agrees_with(text, LAST_DAY) && text[n - 6] == '-' as u8 && time + offset >= 1440) || (
            agrees_with(text, FIRST_DAY) && text[n - 6] == '+' as u8 && time < offset)
        },
        _ => false,
    }
}

// ---------------------------------------------------------------- elements of XML

/// What a stretch of bytes ends at.
#[derive(Debug, Clone, Copy, PartialEq, Eq, Structural)]
pub enum Stop {
    WhiteSpace,
    Colon,
    /// The start of a tag or of a reference.
    Markup,
}

impl Stop {
    pub open spec fn stops(self, byte: u8) -> bool {
        match self {
            Stop::WhiteSpace => byte == ' ' as u8 || byte == '\r' as u8 || byte == '\n' as u8 || byte == '\t' as u8,
            Stop::Colon => byte == ':' as u8,
            Stop::Markup => byte == '<' as u8 || byte == '&' as u8,
        }
    }

    fn stops_at(self, byte: u8) -> (r: bool)
        ensures
            r == self.stops(byte),
    {
        match self {
            Stop::WhiteSpace => byte == ' ' as u8 || byte == '\r' as u8 || byte == '\n' as u8 || byte == '\t' as u8,
            Stop::Colon => byte == ':' as u8,
            Stop::Markup => byte == '<' as u8 || byte == '&' as u8,
        }
    }
}

/// Where the first byte that ends a stretch is, or the length of the bytes.
pub open spec fn first_stop(bytes: Seq<u8>, stop: Stop, from: int) -> int
    decreases bytes.len() - from,
{
    if from >= bytes.len() {
        bytes.len() as int
    } else if stop.stops(bytes[from]) {
        from
    } else {
        first_stop(bytes, stop, from + 1)
    }
}

fn find_stop(bytes: &[u8], stop: Stop) -> (r: usize)
    ensures
        r == first_stop(bytes@, stop, 0),
        r <= bytes.len(),
{
    let mut i: usize = 0;
    while i < bytes.len()
        invariant
            i <= bytes.len(),
            first_stop(bytes@, stop, i as int) == first_stop(bytes@, stop, 0),
        decreases bytes.len() - i,
    {
        if stop.stops_at(bytes[i]) {
            return i;
        }
        i += 1;
    }
    i
}

/// Where the `>` is that ends a tag, quoted parts left aside.
pub open spec fn tag_end(bytes: Seq<u8>, from: int, quote: Option<u8>) -> Option<int>
    decreases bytes.len() - from,
{
    if from >= bytes.len() {
        None
    } else {
        let byte = bytes[from];
        match quote {
            Some(mark) => tag_end(
                bytes,
                from + 1,
                if byte == mark {
                    None
                } else {
                    quote
                },
            ),
            None => if byte == '>' as u8 {
                Some(from)
            } else {
                tag_end(
                    bytes,
                    from + 1,
                    if byte == '\'' as u8 || byte == '"' as u8 {
                        Some(byte)
                    } else {
                        None
                    },
                )
            },
        }
    }
}

fn find_tag_end(bytes: &[u8], start: usize) -> (r: Option<usize>)
    requires
        start <= bytes.len(),
    ensures
        match r {
            Some(end) => tag_end(bytes@, start as int, None) == Some(end as int) && start <= end
                < bytes.len(),
            None => tag_end(bytes@, start as int, None) is None,
        },
{
    let mut i: usize = start;
    let mut quote: Option<u8> = None;
    while i < bytes.len()
        invariant
            start <= i <= bytes.len(),
            tag_end(bytes@, i as int, quote) == tag_end(bytes@, start as int, None),
        decreases bytes.len() - i,
    {
        let byte = bytes[i];
        match quote {
            Some(mark) => {
                if byte == mark {
                    quote = None;
                }
            },
            None => {
                if byte == '>' as u8 {
                    return Some(i);
                }
                if byte == '\'' as u8 || byte == '"' as u8 {
                    quote = Some(byte);
                }
            },
        }
        i += 1;
    }
    None
}

/// The name of an element without its prefix, from what stands between `<` and `>`.
pub open spec fn local_name(tag: Seq<u8>) -> Seq<u8> {
    let name = tag.take(first_stop(tag, Stop::WhiteSpace, 0));
    let colon = first_stop(name, Stop::Colon, 0);
    if colon < name.len() {
        name.skip(colon + 1)
    } else {
        name
    }
}

/// Whether a name is `date`.
pub open spec fn spells_date(name: Seq<u8>) -> bool {
    name.len() == 4 && agrees(name, "date"@)
}

fn is_named_date(tag: &[u8]) -> (r: bool)
    ensures
        r == spells_date(local_name(tag@)),
{
    let name = slice_subrange(tag, 0, find_stop(tag, Stop::WhiteSpace));
    assert(name@ =~= tag@.take(name@.len() as int));
    let colon: usize = find_stop(name, Stop::Colon);
    let local = if colon < name.len() {
        slice_subrange(name, colon + 1, name.len())
    } else {
        name
    };
    assert(local@ =~= local_name(tag@));
    local.len() == 4 && agrees_with(local, "date")
}

/// Whether what follows the tag of a date is one that leaves the range, as far as
/// this can be told: a comment, an instruction or a reference leaves open what the
/// text will be.
pub open spec fn unreadable_text(rest: Seq<u8>) -> bool {
    let end = first_stop(rest, Stop::Markup, 0);
    let text = rest.take(end);
    if end >= rest.len() {
        false
    } else if rest[end] == '&' as u8 {
        may_leave_range(text)
    } else if end + 1 >= rest.len() {
        false
    } else if rest[end + 1] == '/' as u8 {
        leaves_range(text)
    } else {
        (rest[end + 1] == '!' as u8 || rest[end + 1] == '?' as u8) && may_leave_range(text)
    }
}

fn text_is_unreadable(rest: &[u8]) -> (r: bool)
    ensures
        r == unreadable_text(rest@),
{
    let end: usize = find_stop(rest, Stop::Markup);
    let text = slice_subrange(rest, 0, end);
    assert(text@ =~= rest@.take(end as int));
    if end >= rest.len() {
        false
    } else if rest[end] == '&' as u8 {
        text_may_leave_range(text)
    } else if end >= rest.len() - 1 {
        false
    } else if rest[end + 1] == '/' as u8 {
        date_leaves_range(text)
    } else {
        (rest[end + 1] == '!' as u8 || rest[end + 1] == '?' as u8) && text_may_leave_range(text)
    }
}

/// Whether a date that leaves the range begins at a place.
pub open spec fn unreadable_element(bytes: Seq<u8>, at: int) -> bool {
    &&& bytes[at] == '<' as u8
    &&& at + 1 < bytes.len()
    &&& bytes[at + 1] != '/' as u8 && bytes[at + 1] != '!' as u8 && bytes[at + 1] != '?' as u8
    &&& match tag_end(bytes, at + 1, None) {
        Some(end) => {
            &&& bytes[end - 1] != '/' as u8
            &&& spells_date(local_name(bytes.subrange(at + 1, end)))
            &&& unreadable_text(bytes.skip(end + 1))
        },
        None => false,
    }
}

fn element_is_unreadable(bytes: &[u8], at: usize) -> (r: bool)
    requires
        at < bytes.len(),
    ensures
        r == unreadable_element(bytes@, at as int),
{
    if bytes[at] != '<' as u8 || at >= bytes.len() - 1 {
        return false;
    }
    let next = bytes[at + 1];
    if next == '/' as u8 || next == '!' as u8 || next == '?' as u8 {
        return false;
    }
    match find_tag_end(bytes, at + 1) {
        Some(end) => {
            if bytes[end - 1] == '/' as u8 || !is_named_date(slice_subrange(bytes, at + 1, end)) {
                return false;
            }
            let rest = slice_subrange(bytes, end + 1, bytes.len());
            assert(rest@ =~= bytes@.skip(end + 1));
            text_is_unreadable(rest)
        },
        None => false,
    }
}

// ---------------------------------------------------------------- binary lists

/// Whether these are the bytes of a binary list, which begin with `bplist00`.
pub open spec fn binary(bytes: Seq<u8>) -> bool {
    bytes.len() >= 8 && agrees(bytes, "bplist00"@)
}

/// The number that some bytes are, the first being the most significant.
pub open spec fn number(bytes: Seq<u8>, at: int, len: nat) -> nat
    decreases len,
{
    if len == 0 {
        0
    } else {
        number(bytes, at, (len - 1) as nat) * 256 + bytes[at + len - 1] as nat
    }
}

/// The bits of minus 63145526400 as a 64-bit float: the seconds from the start of
/// 2001 back to the start of year 0.
pub const START_OF_YEAR_ZERO: u64 = 0xc22d_6788_8900_0000;

/// The bits of minus 378683424000 as a 64-bit float: the seconds from the start of
/// 2001 back to the start of year -9999. A date before it is refused with an error.
pub const START_OF_DATES: u64 = 0xc256_0ad2_9f40_0000;

/// Whether an object of a binary list is a date before year 0.
pub open spec fn unreadable_object(bytes: Seq<u8>, offset: int) -> bool {
    bytes[offset] == 0x33 && START_OF_YEAR_ZERO < number(bytes, offset + 1, 8) <= START_OF_DATES
}

/// Where an entry of the table says that its object is.
pub open spec fn table_entry(bytes: Seq<u8>, table: int, size: nat, index: int) -> nat {
    number(bytes, table + index * size, size)
}

/// Whether one of the objects of a binary list is a date before year 0. The last 32
/// bytes say where the table of the objects is, how many entries it has, and how
/// many bytes each.
pub open spec fn unreadable_binary(bytes: Seq<u8>) -> bool {
    let trailer = bytes.len() - 32;
    let size = bytes[trailer + 6] as nat;
    let count = number(bytes, trailer + 8, 8);
    let table = number(bytes, trailer + 24, 8);
    &&& trailer >= 0
    &&& size == 1 || size == 2 || size == 3 || size == 4 || size == 8
    &&& table + count * size <= trailer
    &&& exists|index: int|
        0 <= index < count && (#[trigger] table_entry(bytes, table as int, size, index)) < trailer
            && unreadable_object(bytes, table_entry(bytes, table as int, size, index) as int)
}

/// Whether a property list holds a date that cannot be read.
pub open spec fn has_unreadable_date(bytes: Seq<u8>) -> bool {
    if binary(bytes) {
        unreadable_binary(bytes)
    } else {
        exists|at: int| 0 <= at < bytes.len() && #[trigger] unreadable_element(bytes, at)
    }
}

/// As many values as this many bytes have.
spec fn range_of(len: nat) -> nat
    decreases len,
{
    if len == 0 {
        1
    } else {
        256 * range_of((len - 1) as nat)
    }
}

proof fn lemma_number_range(bytes: Seq<u8>, at: int, len: nat)
    requires
        len <= 8,
    ensures
        number(bytes, at, len) < range_of(len) <= 0x1_0000_0000_0000_0000,
    decreases len,
{
    reveal_with_fuel(range_of, 9);
    if len > 0 {
        lemma_number_range(bytes, at, (len - 1) as nat);
    }
}

fn read_number(bytes: &[u8], at: usize, len: usize) -> (r: u64)
    requires
        len <= 8,
        at + len <= bytes.len(),
    ensures
        r == number(bytes@, at as int, len as nat),
{
    let mut value: u64 = 0;
    let mut i: usize = 0;
    while i < len
        invariant
            i <= len <= 8,
            at + len <= bytes.len(),
            value == number(bytes@, at as int, i as nat),
        decreases len - i,
    {
        proof {
            lemma_number_range(bytes@, at as int, (i + 1) as nat);
        }
        value = value * 256 + bytes[at + i] as u64;
        i += 1;
    }
    value
}

fn binary_is_unreadable(bytes: &[u8]) -> (r: bool)
    ensures
        r == unreadable_binary(bytes@),
{
    if bytes.len() < 32 {
        return false;
    }
    let trailer: usize = bytes.len() - 32;
    let size: usize = bytes[trailer + 6] as usize;
    let count: u64 = read_number(bytes, trailer + 8, 8);
    let table: u64 = read_number(bytes, trailer + 24, 8);
    if !(size == 1 || size == 2 || size == 3 || size == 4 || size == 8) {
        return false;
    }
    assert(count * size <= 0x8_0000_0000_0000_0000) by (nonlinear_arith)
        requires
            count <= 0xffff_ffff_ffff_ffff,
            size <= 8,
    ;
    if table as u128 + count as u128 * size as u128 > trailer as u128 {
        return false;
    }
    assert(count <= count * size) by (nonlinear_arith)
        requires
            size >= 1,
    ;
    let mut at: usize = table as usize;
    let mut index: u64 = 0;
    while index < count
        invariant
            trailer + 32 == bytes.len(),
            size == bytes@[trailer + 6] as usize,
            size == 1 || size == 2 || size == 3 || size == 4 || size == 8,
            count == number(bytes@, trailer + 8, 8),
            table == number(bytes@, trailer + 24, 8),
            index <= count,
            table + count * size <= trailer,
            at == table + index * size,
            forall|k: int|
                0 <= k < index ==> !((#[trigger] table_entry(
                    bytes@,
                    table as int,
                    size as nat,
                    k,
                )) < trailer && unreadable_object(
                    bytes@,
                    table_entry(bytes@, table as int, size as nat, k) as int,
                )),
        decreases count - index,
    {
        assert((index + 1) * size == index * size + size) by (nonlinear_arith);
        assert((index + 1) * size <= count * size) by (nonlinear_arith)
            requires
                index + 1 <= count,
        ;
        let offset: u64 = read_number(bytes, at, size);
        assert(offset == table_entry(bytes@, table as int, size as nat, index as int));
        if offset < trailer as u64 && bytes[offset as usize] == 0x33 {
            let seconds: u64 = read_number(bytes, offset as usize + 1, 8);
            if START_OF_YEAR_ZERO < seconds && seconds <= START_OF_DATES {
                return true;
            }
        }
        at += size;
        index += 1;
    }
    false
}

/// Whether a property list holds a date that cannot be read.
pub fn holds_unreadable_date(bytes: &[u8]) -> (r: bool)
    ensures
        r == has_unreadable_date(bytes@),
{
    if bytes.len() >= 8 && agrees_with(bytes, "bplist00") {
        return binary_is_unreadable(bytes);
    }
    let mut at: usize = 0;
    while at < bytes.len()
        invariant
            at <= bytes.len(),
            !binary(bytes@),
            forall|k: int| 0 <= k < at ==> !#[trigger] unreadable_element(bytes@, k),
        decreases bytes.len() - at,
    {
        if element_is_unreadable(bytes, at) {
            return true;
        }
        at += 1;
    }
    false
}

// ---------------------------------------------------------------- laws

/// A date in UTC, which ends in `Z`, can be read whatever its day.
pub proof fn lemma_utc_date_stays_in_range(text: Seq<u8>)
    requires
        text.len() > 0,
        text.last() == 'Z' as u8 || text.last() == 'z' as u8,
    ensures
        !leaves_range(text),
{
}

/// A date on any day but the first and the last can be read whatever its offset.
pub proof fn lemma_date_inside_range(text: Seq<u8>)
    requires
        !agrees(text, FIRST_DAY@),
        !agrees(text, LAST_DAY@),
    ensures
        !leaves_range(text),
        !may_leave_range(text),
{
}

/// The first stop is at or after where the search begins, is a stop unless it is the
/// end, and has no stop before it.
pub proof fn lemma_first_stop_is_first(bytes: Seq<u8>, stop: Stop, from: int)
    requires
        0 <= from <= bytes.len(),
    ensures
        from <= first_stop(bytes, stop, from) <= bytes.len(),
        first_stop(bytes, stop, from) < bytes.len() ==> stop.stops(
            bytes[first_stop(bytes, stop, from)],
        ),
        forall|i: int|
            from <= i < first_stop(bytes, stop, from) ==> !stop.stops(#[trigger] bytes[i]),
    decreases bytes.len() - from,
{
    if from < bytes.len() && !stop.stops(bytes[from]) {
        lemma_first_stop_is_first(bytes, stop, from + 1);
    }
}

/// What ends a name and a text, byte by byte.
pub proof fn lemma_what_stops(byte: u8)
    ensures
        Stop::WhiteSpace.stops(byte) <==> byte == 32 || byte == 13 || byte == 10 || byte == 9,
        Stop::Colon.stops(byte) <==> byte == 58,
        Stop::Markup.stops(byte) <==> byte == 60 || byte == 38,
{
}

/// A date with an offset leaves the range if and only if it is of the last day and the
/// hours and minutes that it lies behind carry it past midnight, or of the first day
/// and those that it lies ahead carry it back before midnight.
pub proof fn lemma_offset_carries_over_midnight(text: Seq<u8>)
    ensures
        leaves_range(text) <==> {
            let n = text.len() as int;
            let digit = |i: int| 48 <= text[i] <= 57;
            let minutes = |i: int, k: int|
                (text[i] - 48) * 600 + (text[i + 1] - 48) * 60 + (text[k] - 48) * 10 + (text[k + 1]
                    - 48);
            &&& n >= 25
            &&& digit(11) && digit(12) && digit(14) && digit(15)
            &&& digit(n - 5) && digit(n - 4) && digit(n - 2) && digit(n - 1)
            &&& {
                ||| agrees(text, "9999-12-31"@) && text[n - 6] == 45 && minutes(11, 14) + minutes(
                    n - 5,
                    n - 2,
                ) >= 1440
                ||| agrees(text, "0000-01-01"@) && text[n - 6] == 43 && minutes(11, 14) < minutes(
                    n - 5,
                    n - 2,
                )
            }
        },
{
    let n = text.len() as int;
    if n >= 25 {
        lemma_digit_byte(text[11]);
        lemma_digit_byte(text[12]);
        lemma_digit_byte(text[14]);
        lemma_digit_byte(text[15]);
        lemma_digit_byte(text[n - 5]);
        lemma_digit_byte(text[n - 4]);
        lemma_digit_byte(text[n - 2]);
        lemma_digit_byte(text[n - 1]);
    }
}

proof fn lemma_digit_byte(byte: u8)
    ensures
        '0' <= byte as char <= '9' <==> 48 <= byte <= 57,
{
}

/// Only the first and the last day can be carried out of the range.
pub proof fn lemma_days_that_may_leave_range(text: Seq<u8>)
    ensures
        may_leave_range(text) <==> agrees(text, "9999-12-31"@) || agrees(text, "0000-01-01"@),
        leaves_range(text) ==> may_leave_range(text),
{
}

/// The bytes of a text of ASCII characters agree with it, and of as many bytes no
/// others do.
pub proof fn lemma_agreeing_bytes(bytes: Seq<u8>, other: Seq<u8>, text: Seq<char>)
    requires
        bytes.len() == text.len(),
        other.len() == text.len(),
        agrees(bytes, text),
        agrees(other, text),
    ensures
        bytes == other,
{
    assert forall|i: int| 0 <= i < bytes.len() implies bytes[i] == other[i] by {
        assert(bytes[i] as char == text[i]);
        assert(other[i] as char == text[i]);
        lemma_byte_of_char(bytes[i], other[i]);
    }
    assert(bytes =~= other);
}

proof fn lemma_byte_of_char(a: u8, b: u8)
    requires
        a as char == b as char,
    ensures
        a == b,
{
}

/// A date element whose text leaves the range is found wherever it stands in a list
/// that is spelled out, whatever comes before it and after it.
pub proof fn lemma_date_element_is_found(before: Seq<u8>, text: Seq<u8>, after: Seq<u8>)
    requires
        leaves_range(text),
        forall|i: int| 0 <= i < text.len() ==> #[trigger] text[i] != 60 && text[i] != 38,
        !binary(before + date_tag() + text + seq![60u8, 47u8] + after),
    ensures
        has_unreadable_date(before + date_tag() + text + seq![60u8, 47u8] + after),
{
    let bytes = before + date_tag() + text + seq![60u8, 47u8] + after;
    let at = before.len() as int;
    let end = at + 5;
    assert(bytes[at] == 60 && bytes[at + 1] == 100 && bytes[at + 2] == 97 && bytes[at + 3] == 116
        && bytes[at + 4] == 101 && bytes[at + 5] == 62);
    reveal_with_fuel(tag_end, 6);
    assert(tag_end(bytes, at + 1, None) == Some(end));
    let name = bytes.subrange(at + 1, end);
    assert(name.len() == 4);
    assert(name[0] == 100 && name[1] == 97 && name[2] == 116 && name[3] == 101);
    reveal_with_fuel(first_stop, 6);
    assert(first_stop(name, Stop::WhiteSpace, 0) == 4);
    assert(name.take(4) =~= name);
    assert(first_stop(name, Stop::Colon, 0) == 4);
    assert(local_name(name) == name);
    reveal_strlit("date");
    assert(spells_date(name));
    let rest = bytes.skip(end + 1);
    assert(rest =~= text + seq![60u8, 47u8] + after);
    lemma_first_stop_is_first(rest, Stop::Markup, 0);
    let stop = first_stop(rest, Stop::Markup, 0);
    assert(stop == text.len()) by {
        assert(rest[text.len() as int] == 60);
        if stop < text.len() {
            assert(rest[stop] == text[stop]);
        }
    }
    assert(rest.take(stop) =~= text);
    assert(rest[stop + 1] == 47);
    assert(unreadable_text(rest));
    assert(unreadable_element(bytes, at));
}

/// The bytes of the tag that begins a date.
pub open spec fn date_tag() -> Seq<u8> {
    seq![60u8, 100u8, 97u8, 116u8, 101u8, 62u8]
}

/// Without a tag there is no date to find in a list that is spelled out.
pub proof fn lemma_no_tag_no_date(bytes: Seq<u8>)
    requires
        !binary(bytes),
        forall|i: int| 0 <= i < bytes.len() ==> #[trigger] bytes[i] != 60,
    ensures
        !has_unreadable_date(bytes),
{
}

/// A number takes its bytes from the highest to the lowest: each further byte counts
/// once what is before it counts two hundred and fifty-six times.
pub proof fn lemma_number_byte_by_byte(bytes: Seq<u8>, at: int, len: nat)
    ensures
        number(bytes, at, 0) == 0,
        number(bytes, at, 1) == bytes[at],
        number(bytes, at, 2) == bytes[at] * 256 + bytes[at + 1],
        number(bytes, at, len + 1) == number(bytes, at, len) * 256 + bytes[at + len],
{
    reveal_with_fuel(number, 3);
}

/// A list is binary if and only if it begins with the eight bytes that say so.
pub proof fn lemma_binary_lists(bytes: Seq<u8>)
    ensures
        binary(bytes) <==> bytes.len() >= 8 && bytes[0] == 98 && bytes[1] == 112 && bytes[2] == 108
            && bytes[3] == 105 && bytes[4] == 115 && bytes[5] == 116 && bytes[6] == 48 && bytes[7]
            == 48,
{
    reveal_strlit("bplist00");
    let text = "bplist00"@;
    if bytes.len() >= 8 {
        lemma_byte_is(bytes[0], 98, 'b');
        lemma_byte_is(bytes[1], 112, 'p');
        lemma_byte_is(bytes[2], 108, 'l');
        lemma_byte_is(bytes[3], 105, 'i');
        lemma_byte_is(bytes[4], 115, 's');
        lemma_byte_is(bytes[5], 116, 't');
        lemma_byte_is(bytes[6], 48, '0');
        lemma_byte_is(bytes[7], 48, '0');
        if agrees(bytes, text) {
            assert(bytes[0] as char == text[0] && bytes[1] as char == text[1] && bytes[2] as char
                == text[2] && bytes[3] as char == text[3] && bytes[4] as char == text[4]
                && bytes[5] as char == text[5] && bytes[6] as char == text[6] && bytes[7] as char
                == text[7]);
        }
    }
}

proof fn lemma_byte_is(byte: u8, code: u8, c: char)
    requires
        code as char == c,
    ensures
        byte as char == c <==> byte == code,
{
}

/// In a binary list a date is found by its mark and its eight bytes, which as a number
/// lie between those of the start of year zero and of the earliest date.
pub proof fn lemma_binary_date_is_found(bytes: Seq<u8>, index: int)
    requires
        binary(bytes),
        bytes.len() >= 32,
    ensures
        ({
            let trailer = bytes.len() - 32;
            let size = bytes[trailer + 6] as nat;
            let count = number(bytes, trailer + 8, 8);
            let table = number(bytes, trailer + 24, 8);
            let offset = number(bytes, table + index * size, size) as int;
            (size == 1 || size == 2 || size == 3 || size == 4 || size == 8) && table + count * size
                <= trailer && 0 <= index < count && offset < trailer && bytes[offset] == 51
                && 0xc22d_6788_8900_0000 < number(bytes, offset + 1, 8) <= 0xc256_0ad2_9f40_0000
                ==> has_unreadable_date(bytes)
        }),
        has_unreadable_date(bytes) ==> exists|offset: int|
            0 <= offset < bytes.len() - 32 && #[trigger] bytes[offset] == 51
                && 0xc22d_6788_8900_0000 < number(bytes, offset + 1, 8) <= 0xc256_0ad2_9f40_0000,
{
    let trailer = bytes.len() - 32;
    let size = bytes[trailer + 6] as nat;
    let count = number(bytes, trailer + 8, 8);
    let table = number(bytes, trailer + 24, 8);
    assert(table_entry(bytes, table as int, size, index) == number(
        bytes,
        table + index * size,
        size,
    ));
    if has_unreadable_date(bytes) {
        let found = choose|i: int|
            0 <= i < count && (#[trigger] table_entry(bytes, table as int, size, i)) < trailer
                && unreadable_object(bytes, table_entry(bytes, table as int, size, i) as int);
        let offset = table_entry(bytes, table as int, size, found) as int;
        assert(bytes[offset] == 51);
    }
}

/// A tag without quotes ends at the first closing bracket; a quoted part of it is
/// passed over whole, brackets and all, and a tag that is not closed has no end.
pub proof fn lemma_tag_ends(bytes: Seq<u8>, from: int, end: int)
    requires
        0 <= from <= end <= bytes.len(),
    ensures
        (forall|i: int|
            from <= i < end ==> #[trigger] bytes[i] != 62 && bytes[i] != 34 && bytes[i] != 39) ==> {
            &&& end < bytes.len() && bytes[end] == 62 ==> tag_end(bytes, from, None) == Some(end)
            &&& end == bytes.len() ==> tag_end(bytes, from, None) is None
        },
        end < bytes.len() && from < end && (bytes[from] == 34 || bytes[from] == 39) && bytes[end]
            == bytes[from] && (forall|i: int|
            from < i < end ==> #[trigger] bytes[i] != bytes[from]) ==> tag_end(bytes, from, None)
            == tag_end(bytes, end + 1, None),
    decreases end - from,
{
    if forall|i: int|
        from <= i < end ==> #[trigger] bytes[i] != 62 && bytes[i] != 34 && bytes[i] != 39 {
        if from < end {
            assert(bytes[from] != 62 && bytes[from] != 34 && bytes[from] != 39);
            lemma_tag_ends(bytes, from + 1, end);
        }
    }
    if end < bytes.len() && from < end && (bytes[from] == 34 || bytes[from] == 39) && bytes[end]
        == bytes[from] && forall|i: int| from < i < end ==> #[trigger] bytes[i] != bytes[from] {
        lemma_quote_is_passed(bytes, from + 1, end, bytes[from]);
    }
}

proof fn lemma_quote_is_passed(bytes: Seq<u8>, from: int, end: int, mark: u8)
    requires
        0 <= from <= end < bytes.len(),
        bytes[end] == mark,
        forall|i: int| from <= i < end ==> #[trigger] bytes[i] != mark,
    ensures
        tag_end(bytes, from, Some(mark)) == tag_end(bytes, end + 1, None),
    decreases end - from,
{
    if from < end {
        lemma_quote_is_passed(bytes, from + 1, end, mark);
    }
}

/// The name in a tag is what comes before any white space, without what comes before
/// its first colon.
pub proof fn lemma_name_in_tag(space: Seq<u8>, name: Seq<u8>, rest: Seq<u8>, gap: u8)
    requires
        forall|i: int|
            0 <= i < space.len() ==> !Stop::WhiteSpace.stops(#[trigger] space[i])
                && !Stop::Colon.stops(space[i]),
        forall|i: int| 0 <= i < name.len() ==> !Stop::WhiteSpace.stops(#[trigger] name[i]),
        Stop::WhiteSpace.stops(gap),
    ensures
        local_name(space + seq![58u8] + name) == name,
        local_name(space + seq![58u8] + name + seq![gap] + rest) == name,
        local_name(space) == space,
        local_name(space + seq![gap] + rest) == space,
{
    let whole = space + seq![58u8] + name;
    lemma_name_before_gap(whole, rest, gap);
    lemma_name_before_gap(space, rest, gap);
    lemma_first_stop_is_first(whole, Stop::Colon, 0);
    lemma_first_stop_is_first(space, Stop::Colon, 0);
    let colon = first_stop(whole, Stop::Colon, 0);
    assert(whole[space.len() as int] == 58);
    assert(colon == space.len()) by {
        if colon < space.len() {
            assert(whole[colon] == space[colon]);
        }
    }
    assert(whole.skip(colon + 1) =~= name);
}

proof fn lemma_name_before_gap(name: Seq<u8>, rest: Seq<u8>, gap: u8)
    requires
        forall|i: int| 0 <= i < name.len() ==> !Stop::WhiteSpace.stops(#[trigger] name[i]),
        Stop::WhiteSpace.stops(gap),
    ensures
        name.take(first_stop(name, Stop::WhiteSpace, 0)) == name,
        (name + seq![gap] + rest).take(
            first_stop(name + seq![gap] + rest, Stop::WhiteSpace, 0),
        ) == name,
{
    let whole = name + seq![gap] + rest;
    lemma_first_stop_is_first(name, Stop::WhiteSpace, 0);
    lemma_first_stop_is_first(whole, Stop::WhiteSpace, 0);
    let end = first_stop(whole, Stop::WhiteSpace, 0);
    assert(whole[name.len() as int] == gap);
    assert(end == name.len()) by {
        if end < name.len() {
            assert(whole[end] == name[end]);
        }
    }
    assert(whole.take(end) =~= name);
    assert(name.take(name.len() as int) =~= name);
}

/// The text of a date counts as it stands where the tag is closed behind it. Where
/// more text may follow, behind a reference, a comment or an instruction, its day
/// alone counts. Text that nothing comes behind does not count.
pub proof fn lemma_text_of_date(text: Seq<u8>, mark: u8, after: Seq<u8>)
    requires
        forall|i: int| 0 <= i < text.len() ==> #[trigger] text[i] != 60 && text[i] != 38,
    ensures
        !unreadable_text(text),
        unreadable_text(text + seq![38u8] + after) <==> may_leave_range(text),
        unreadable_text(text + seq![60u8, 47u8] + after) <==> leaves_range(text),
        mark == 33 || mark == 63 ==> (unreadable_text(text + seq![60u8, mark] + after)
            <==> may_leave_range(text)),
        mark != 33 && mark != 63 && mark != 47 ==> !unreadable_text(
            text + seq![60u8, mark] + after,
        ),
{
    lemma_first_stop_is_first(text, Stop::Markup, 0);
    let next = seq![38u8] + after;
    assert(text + seq![38u8] + after =~= text + next);
    lemma_text_before_markup(text, next);
    let next = seq![60u8, 47u8] + after;
    assert(text + seq![60u8, 47u8] + after =~= text + next);
    lemma_text_before_markup(text, next);
    let next = seq![60u8, mark] + after;
    assert(text + seq![60u8, mark] + after =~= text + next);
    lemma_text_before_markup(text, next);
}

proof fn lemma_text_before_markup(text: Seq<u8>, next: Seq<u8>)
    requires
        forall|i: int| 0 <= i < text.len() ==> #[trigger] text[i] != 60 && text[i] != 38,
        next.len() > 0,
        next[0] == 60 || next[0] == 38,
    ensures
        first_stop(text + next, Stop::Markup, 0) == text.len(),
        (text + next).take(text.len() as int) == text,
        forall|i: int| 0 <= i < next.len() ==> (text + next)[text.len() + i] == #[trigger] next[i],
{
    let whole = text + next;
    lemma_first_stop_is_first(whole, Stop::Markup, 0);
    let end = first_stop(whole, Stop::Markup, 0);
    assert(whole[text.len() as int] == next[0]);
    assert(end == text.len()) by {
        if end < text.len() {
            assert(whole[end] == text[end]);
        }
    }
    assert(whole.take(text.len() as int) =~= text);
}

/// Bytes and an ASCII text agree if and only if they are the same as far as the shorter
/// of the two goes.
pub proof fn lemma_agree_as_far_as_both_go(bytes: Seq<u8>, text: Seq<char>)
    ensures
        agrees(bytes, text) <==> forall|i: int|
            0 <= i < bytes.len() && i < text.len() ==> #[trigger] bytes[i] as int == text[i] as u32,
{
    assert forall|i: int| 0 <= i < bytes.len() && i < text.len() implies (bytes[i] as char
        == text[i] <==> #[trigger] bytes[i] as int == text[i] as u32) by {
        lemma_byte_stands_for(bytes[i], text[i]);
    }
}

proof fn lemma_byte_stands_for(byte: u8, c: char)
    ensures
        byte as char == c <==> byte as int == c as u32,
{
}

} // verus!
