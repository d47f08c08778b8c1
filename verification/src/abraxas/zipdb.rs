//! Looking up the coordinates of a ZIP code.
//!
//! A database is a count of four bytes and that many entries of thirteen: five bytes of ZIP code,
//! in order, then latitude and longitude as 32-bit IEEE 754 numbers. All numbers are little-endian.
use vstd::prelude::*;

verus! {

pub const ENTRY_SIZE: usize = 13;

pub const HEADER_SIZE: usize = 4;

/// The coordinates of an entry, as bit patterns.
#[derive(Debug, Clone, Copy, PartialEq, Eq, Structural)]
pub struct Coordinates {
    pub lat: u32,
    pub lon: u32,
}

/// The little-endian number of four bytes at `at`.
pub open spec fn word_at(data: Seq<u8>, at: int) -> int {
    data[at] + data[at + 1] * 0x100 + data[at + 2] * 0x1_0000 + data[at + 3] * 0x100_0000
}

/// The number of entries that the database claims.
pub open spec fn count_of(data: Seq<u8>) -> int {
    word_at(data, 0)
}

pub open spec fn offset_of(i: int) -> int {
    HEADER_SIZE + i * ENTRY_SIZE
}

/// The ZIP code of entry `i`.
pub open spec fn zip_at(data: Seq<u8>, i: int) -> Seq<u8> {
    data.subrange(offset_of(i), offset_of(i) + 5)
}

/// The coordinates of entry `i`.
pub open spec fn coordinates_at(data: Seq<u8>, i: int) -> Coordinates {
    Coordinates {
        lat: word_at(data, offset_of(i) + 5) as u32,
        lon: word_at(data, offset_of(i) + 9) as u32,
    }
}

/// The five bytes that are looked for: the first five of the text, or all of a shorter one behind
/// zeros.
pub open spec fn normalized(zip: Seq<u8>) -> Seq<u8> {
    if zip.len() >= 5 {
        zip.take(5)
    } else {
        Seq::new((5 - zip.len()) as nat, |i: int| 0x30u8) + zip
    }
}

/// Whether `a` comes before `b`, byte by byte.
pub open spec fn bytes_before(a: Seq<u8>, b: Seq<u8>) -> bool
    decreases a.len(),
{
    if b.len() == 0 {
        false
    } else if a.len() == 0 {
        true
    } else {
        a[0] < b[0] || (a[0] == b[0] && bytes_before(a.skip(1), b.skip(1)))
    }
}

/// The search by halves among the entries `low..=high`. It ends without a result at an entry that
/// the data does not hold.
pub open spec fn search(data: Seq<u8>, zip: Seq<u8>, low: int, high: int) -> Option<Coordinates>
    decreases high - low + 1,
{
    let mid = low + (high - low) / 2;
    if low > high {
        None
    } else if offset_of(mid) + ENTRY_SIZE > data.len() {
        None
    } else if zip_at(data, mid) == zip {
        Some(coordinates_at(data, mid))
    } else if bytes_before(zip_at(data, mid), zip) {
        search(data, zip, mid + 1, high)
    } else {
        search(data, zip, low, mid - 1)
    }
}

/// What is found of a ZIP code.
pub open spec fn found(data: Seq<u8>, zip: Seq<u8>) -> Option<Coordinates> {
    if data.len() < HEADER_SIZE {
        None
    } else {
        search(data, normalized(zip), 0, count_of(data) - 1)
    }
}

fn read_word(data: &[u8], at: usize) -> (r: u32)
    requires
        at + 4 <= data@.len(),
    ensures
        r == word_at(data@, at as int),
{
    data[at] as u32 + data[at + 1] as u32 * 0x100 + data[at + 2] as u32 * 0x1_0000 + data[at
        + 3] as u32 * 0x100_0000
}

fn normalize(zip: &[u8]) -> (r: Vec<u8>)
    ensures
        r@ == normalized(zip@),
        r@.len() == 5,
{
    let len = if zip.len() < 5 {
        zip.len()
    } else {
        5
    };
    let mut out: Vec<u8> = Vec::new();
    while out.len() < 5 - len
        invariant
            len <= 5,
            out@.len() <= 5 - len,
            forall|i: int| 0 <= i < out@.len() ==> out@[i] == 0x30,
        decreases 5 - len - out.len(),
    {
        out.push(0x30);
    }
    let ghost pad = out@;
    let mut i: usize = 0;
    while i < len
        invariant
            len <= 5,
            len <= zip@.len(),
            i <= len,
            out@ == pad + zip@.take(i as int),
        decreases len - i,
    {
        out.push(zip[i]);
        i += 1;
        assert(out@ =~= pad + zip@.take(i as int));
    }
    assert(out@ =~= normalized(zip@));
    out
}

/// Whether the five bytes at `at` come before `zip`, are it, or come after.
enum Place {
    Before,
    Same,
    After,
}

proof fn lemma_first_difference(a: Seq<u8>, b: Seq<u8>, k: int)
    requires
        0 <= k < a.len(),
        k < b.len(),
        forall|i: int| 0 <= i < k ==> a[i] == b[i],
        a[k] != b[k],
    ensures
        bytes_before(a, b) == (a[k] < b[k]),
        a != b,
    decreases k,
{
    if k > 0 {
        let x = a.skip(1);
        let y = b.skip(1);
        assert forall|i: int| 0 <= i < k - 1 implies x[i] == y[i] by {
            assert(x[i] == a[i + 1] && y[i] == b[i + 1]);
        }
        assert(x[k - 1] == a[k] && y[k - 1] == b[k]);
        lemma_first_difference(x, y, k - 1);
    }
}

fn place_of(data: &[u8], at: usize, zip: &Vec<u8>) -> (r: Place)
    requires
        at + 5 <= data@.len(),
        zip@.len() == 5,
    ensures
        match r {
            Place::Same => data@.subrange(at as int, at + 5) == zip@,
            Place::Before => data@.subrange(at as int, at + 5) != zip@ && bytes_before(
                data@.subrange(at as int, at + 5),
                zip@,
            ),
            Place::After => data@.subrange(at as int, at + 5) != zip@ && !bytes_before(
                data@.subrange(at as int, at + 5),
                zip@,
            ),
        },
{
    let ghost key = data@.subrange(at as int, at + 5);
    let total = data.len();
    let mut i: usize = 0;
    while i < 5
        invariant
            total == data@.len(),
            at + 5 <= total,
            zip@.len() == 5,
            i <= 5,
            key == data@.subrange(at as int, at + 5),
            forall|j: int| 0 <= j < i ==> key[j] == zip@[j],
        decreases 5 - i,
    {
        if data[at + i] != zip[i] {
            proof {
                lemma_first_difference(key, zip@, i as int);
            }
            return if data[at + i] < zip[i] {
                Place::Before
            } else {
                Place::After
            };
        }
        i += 1;
    }
    assert(key =~= zip@);
    Place::Same
}

/// Looks a ZIP code up in a database.
pub fn lookup(data: &[u8], zipcode: &str) -> (r: Option<Coordinates>)
    ensures
        r == found(data@, vstd::utf8::encode_utf8(zipcode@)),
{
    let zip5 = normalize(zipcode.as_bytes());
    if data.len() < HEADER_SIZE {
        return None;
    }
    let total = data.len() as u64;
    let count = read_word(data, 0) as u64;
    let mut low: u64 = 0;
    let mut end: u64 = count;
    let ghost zip = zip5@;
    while low < end
        invariant_except_break
            total == data@.len(),
            HEADER_SIZE <= total <= usize::MAX,
            zip5@ == zip,
            zip == normalized(vstd::utf8::encode_utf8(zipcode@)),
            count == count_of(data@),
            zip.len() == 5,
            low <= u32::MAX,
            end <= count <= u32::MAX,
            search(data@, zip, 0, count - 1) == search(data@, zip, low as int, end - 1),
        ensures
            search(data@, zip, 0, count - 1) is None,
        decreases end - low,
    {
        let mid = low + (end - 1 - low) / 2;
        let offset = HEADER_SIZE as u64 + mid * ENTRY_SIZE as u64;
        if offset + ENTRY_SIZE as u64 > total {
            break;
        }
        let at = offset as usize;
        match place_of(data, at, &zip5) {
            Place::Same => {
                return Some(
                    Coordinates { lat: read_word(data, at + 5), lon: read_word(data, at + 9) },
                );
            },
            Place::Before => {
                low = mid + 1;
            },
            Place::After => {
                end = mid;
            },
        }
    }
    None
}

/// The database holds all its entries, in strictly rising order of their ZIP codes.
pub open spec fn well_ordered(data: Seq<u8>) -> bool {
    &&& data.len() >= HEADER_SIZE
    &&& offset_of(count_of(data)) <= data.len()
    &&& forall|i: int, j: int|
        0 <= i < j < count_of(data) ==> bytes_before(
            #[trigger] zip_at(data, i),
            #[trigger] zip_at(data, j),
        )
}

proof fn lemma_before_asymmetric(a: Seq<u8>, b: Seq<u8>)
    requires
        bytes_before(a, b),
    ensures
        !bytes_before(b, a),
        a != b,
    decreases a.len(),
{
    if a.len() > 0 && a[0] == b[0] {
        lemma_before_asymmetric(a.skip(1), b.skip(1));
    }
}

proof fn lemma_search_finds(data: Seq<u8>, k: int, low: int, high: int)
    requires
        well_ordered(data),
        0 <= low <= k <= high < count_of(data),
    ensures
        search(data, zip_at(data, k), low, high) == Some(coordinates_at(data, k)),
    decreases high - low,
{
    let zip = zip_at(data, k);
    let mid = low + (high - low) / 2;
    assert(offset_of(mid) + ENTRY_SIZE <= offset_of(count_of(data)));
    if k < mid {
        assert(bytes_before(zip_at(data, k), zip_at(data, mid)));
        lemma_before_asymmetric(zip_at(data, k), zip_at(data, mid));
        lemma_search_finds(data, k, low, mid - 1);
    } else if k > mid {
        assert(bytes_before(zip_at(data, mid), zip_at(data, k)));
        lemma_before_asymmetric(zip_at(data, mid), zip_at(data, k));
        lemma_search_finds(data, k, mid + 1, high);
    }
}

proof fn lemma_search_is_sound(data: Seq<u8>, zip: Seq<u8>, low: int, high: int)
    requires
        0 <= low,
    ensures
        search(data, zip, low, high) matches Some(c) ==> exists|i: int|
            low <= i <= high && #[trigger] zip_at(data, i) == zip && coordinates_at(data, i) == c,
    decreases high - low + 1,
{
    if low <= high {
        let mid = low + (high - low) / 2;
        lemma_search_is_sound(data, zip, mid + 1, high);
        lemma_search_is_sound(data, zip, low, mid - 1);
        if search(data, zip, low, high) is Some {
            let c = search(data, zip, low, high)->0;
            if zip_at(data, mid) == zip {
            } else if bytes_before(zip_at(data, mid), zip) {
                let i = choose|i: int|
                    mid + 1 <= i <= high && #[trigger] zip_at(data, i) == zip && coordinates_at(
                        data,
                        i,
                    ) == c;
                assert(low <= i <= high && zip_at(data, i) == zip);
            } else {
                let i = choose|i: int|
                    low <= i <= mid - 1 && #[trigger] zip_at(data, i) == zip && coordinates_at(
                        data,
                        i,
                    ) == c;
                assert(low <= i <= high && zip_at(data, i) == zip);
            }
        }
    }
}

/// In a database in order, every entry is found under its ZIP code.
pub proof fn law_every_entry_is_found(data: Seq<u8>, k: int)
    requires
        well_ordered(data),
        0 <= k < count_of(data),
    ensures
        found(data, zip_at(data, k)) == Some(coordinates_at(data, k)),
{
    let zip = zip_at(data, k);
    assert(offset_of(k) + ENTRY_SIZE <= offset_of(count_of(data)));
    assert(zip.len() == 5);
    assert(normalized(zip) =~= zip);
    lemma_search_finds(data, k, 0, count_of(data) - 1);
}

/// What is found is the entry of that ZIP code.
pub proof fn law_found_is_an_entry(data: Seq<u8>, zip: Seq<u8>)
    ensures
        found(data, zip) matches Some(c) ==> exists|i: int|
            0 <= i < count_of(data) && #[trigger] zip_at(data, i) == normalized(zip)
                && coordinates_at(data, i) == c,
{
    lemma_search_is_sound(data, normalized(zip), 0, count_of(data) - 1);
    if found(data, zip) is Some {
        let c = found(data, zip)->0;
        let i = choose|i: int|
            0 <= i <= count_of(data) - 1 && #[trigger] zip_at(data, i) == normalized(zip)
                && coordinates_at(data, i) == c;
        assert(0 <= i < count_of(data) && zip_at(data, i) == normalized(zip));
    }
}

/// An entry is read as it was written: its coordinates are the two numbers behind its five digits,
/// the low byte of each first, latitude before longitude.
pub proof fn law_coordinates_are_read_as_written(data: Seq<u8>, k: int, at: int)
    requires
        well_ordered(data),
        0 <= k < count_of(data),
        at == 4 + 13 * k,
    ensures
        found(data, data.subrange(at, at + 5)) matches Some(c) && c.lat == data[at + 5] + data[at + 6]
            * 0x100 + data[at + 7] * 0x1_0000 + data[at + 8] * 0x100_0000 && c.lon == data[at + 9]
            + data[at + 10] * 0x100 + data[at + 11] * 0x1_0000 + data[at + 12] * 0x100_0000,
        count_of(data) == data[0] + data[1] * 0x100 + data[2] * 0x1_0000 + data[3] * 0x100_0000,
{
    law_every_entry_is_found(data, k);
    assert(zip_at(data, k) =~= data.subrange(at, at + 5));
}

/// A code is looked up with its five digits: zeros stand in for those that a short one lacks, and
/// what a long one has behind them does not count.
pub proof fn law_code_has_five_digits(zip: Seq<u8>, more: Seq<u8>)
    ensures
        normalized(zip).len() == 5,
        zip.len() == 5 ==> normalized(zip + more) == zip && normalized(zip) == zip,
        zip.len() < 5 ==> normalized(seq![0x30u8] + zip) == normalized(zip),
        zip.len() <= 5 ==> normalized(zip).skip(5 - zip.len()) == zip,
        normalized(normalized(zip)) == normalized(zip),
{
    if zip.len() == 5 {
        assert((zip + more).take(5) =~= zip);
        assert(zip.take(5) =~= zip);
    }
    if zip.len() < 5 {
        let s = seq![0x30u8] + zip;
        assert(normalized(s) =~= normalized(zip));
    }
    if zip.len() <= 5 {
        assert(normalized(zip).skip(5 - zip.len()) =~= zip);
    }
    assert(normalized(zip).take(5) =~= normalized(zip));
}

/// The order of the entries is an order: of two different codes one stands before the other, and not
/// the other way round, and the first byte in which they differ decides.
pub proof fn law_codes_are_in_order(a: Seq<u8>, b: Seq<u8>, k: int)
    requires
        a.len() == b.len(),
        0 <= k < a.len(),
        a.take(k) == b.take(k),
        a[k] != b[k],
    ensures
        bytes_before(a, b) == (a[k] < b[k]),
        bytes_before(b, a) == (b[k] < a[k]),
        !bytes_before(a, a),
    decreases k,
{
    if bytes_before(a, a) {
        lemma_before_asymmetric(a, a);
    }
    if k > 0 {
        assert(a.take(k)[0] == a[0] && b.take(k)[0] == b[0]);
        assert(a.skip(1).take(k - 1) =~= a.take(k).skip(1));
        assert(b.skip(1).take(k - 1) =~= b.take(k).skip(1));
        law_codes_are_in_order(a.skip(1), b.skip(1), k - 1);
    }
}

} // verus!
