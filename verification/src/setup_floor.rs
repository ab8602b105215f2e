//! The floors of a Vorbis setup header.

use crate::bit_stream::{bits_value, lemma_bits_value_bound, BitStreamReader};
use crate::ogg_vorbis_page::{OggVorbisPage, VorbisFormatError};
use crate::vorbis_setup::{
    incomplete_setup, lemma_list_length, repeat, repeat_from, rows_view, within, Floor0View, Floor1View,
    IVorbisFloorType0, IVorbisFloorType1, Read,
};
use vstd::arithmetic::power2::{lemma2_to64, pow2};
use vstd::prelude::*;

verus! {

/// A number of at most eight bits.
pub open spec fn u8_at(data: Seq<u8>, at: nat, width: nat) -> Read<u8> {
    if within(data, at, width) {
        Some((bits_value(data, at, width) as u8, at + width))
    } else {
        None
    }
}

/// The reading of numbers of `width` bits, one behind the other.
pub open spec fn u8_part(data: Seq<u8>, width: nat) -> spec_fn(nat) -> Read<u8> {
    |at: nat| u8_at(data, at, width)
}

/// A number of at most sixteen bits, held in 32 bits with a sign.
pub open spec fn i32_at(data: Seq<u8>, at: nat, width: nat) -> Read<i32> {
    if within(data, at, width) {
        Some((bits_value(data, at, width) as i32, at + width))
    } else {
        None
    }
}

/// The reading of numbers of `width` bits, one behind the other.
pub open spec fn i32_part(data: Seq<u8>, width: nat) -> spec_fn(nat) -> Read<i32> {
    |at: nat| i32_at(data, at, width)
}

/// The number of a codebook: eight bits that hold at most `limit`.
pub open spec fn book_at(data: Seq<u8>, at: nat, limit: nat) -> Read<u8> {
    if within(data, at, 8) && bits_value(data, at, 8) <= limit {
        Some((bits_value(data, at, 8) as u8, at + 8))
    } else {
        None
    }
}

/// The reading of codebook numbers, one behind the other.
pub open spec fn book_part(data: Seq<u8>, limit: nat) -> spec_fn(nat) -> Read<u8> {
    |at: nat| book_at(data, at, limit)
}

/// A floor of type 0: six numbers, the last of them one less than the
/// number of codebooks of the floor, and the numbers of those codebooks,
/// none of which is larger than the number of codebooks of the stream.
pub open spec fn floor0_at(data: Seq<u8>, at: nat, codebook_count: nat) -> Read<Floor0View> {
    if !within(data, at, 58) {
        None
    } else {
        let number_of_books = bits_value(data, at + 54, 4) + 1;
        match repeat(book_part(data, codebook_count), at + 58, number_of_books) {
            Some((book_list, end)) => Some(
                (
                    Floor0View {
                        order: bits_value(data, at, 8) as u8,
                        rate: bits_value(data, at + 8, 16) as u16,
                        bark_map_size: bits_value(data, at + 24, 16) as u16,
                        amplitude_bits: bits_value(data, at + 40, 6) as u8,
                        amplitude_offset: bits_value(data, at + 46, 8) as u8,
                        number_of_books: number_of_books as u8,
                        book_list,
                    },
                    end,
                ),
            ),
            None => None,
        }
    }
}

/// Reads `count` numbers of `width` bits each.
pub fn read_u8_list(reader: &mut BitStreamReader, count: usize, width: usize) -> (result: Result<
    Vec<u8>,
    VorbisFormatError,
>)
    requires
        old(reader).addressable(),
        width <= 8,
    ensures
        final(reader).data == old(reader).data,
        result is Ok <==> repeat(
            u8_part(old(reader).data@, width as nat),
            old(reader).cursor as nat,
            count as nat,
        ) is Some,
        result is Ok ==> repeat(
            u8_part(old(reader).data@, width as nat),
            old(reader).cursor as nat,
            count as nat,
        ) == Some((result->Ok_0@, final(reader).cursor as nat)),
{
    let ghost data = reader.data@;
    let ghost part = u8_part(data, width as nat);
    let ghost all = repeat(part, reader.cursor as nat, count as nat);
    let mut values: Vec<u8> = Vec::new();
    let mut i: usize = 0;
    while i < count
        invariant
            i <= count,
            width <= 8,
            reader.addressable(),
            reader.data == old(reader).data,
            data == reader.data@,
            part == u8_part(data, width as nat),
            all == repeat(part, old(reader).cursor as nat, count as nat),
            all == repeat_from(part, reader.cursor as nat, (count - i) as nat, values@),
        decreases count - i,
    {
        if !reader.has_bits(width) {
            return Err(incomplete_setup());
        }
        proof {
            lemma_bits_value_bound(data, reader.cursor as nat, width as nat);
            lemma2_to64();
            if width < 8 {
                vstd::arithmetic::power2::lemma_pow2_strictly_increases(width as nat, 8);
            }
        }
        let value = reader.read_uint_n(width) as u8;
        values.push(value);
        i += 1;
    }
    Ok(values)
}

/// Reads `count` numbers of `width` bits each into signed words.
pub fn read_i32_list(reader: &mut BitStreamReader, count: usize, width: usize) -> (result: Result<
    Vec<i32>,
    VorbisFormatError,
>)
    requires
        old(reader).addressable(),
        width <= 16,
    ensures
        final(reader).data == old(reader).data,
        result is Ok <==> repeat(
            i32_part(old(reader).data@, width as nat),
            old(reader).cursor as nat,
            count as nat,
        ) is Some,
        result is Ok ==> repeat(
            i32_part(old(reader).data@, width as nat),
            old(reader).cursor as nat,
            count as nat,
        ) == Some((result->Ok_0@, final(reader).cursor as nat)),
{
    let ghost data = reader.data@;
    let ghost part = i32_part(data, width as nat);
    let ghost all = repeat(part, reader.cursor as nat, count as nat);
    let mut values: Vec<i32> = Vec::new();
    let mut i: usize = 0;
    while i < count
        invariant
            i <= count,
            width <= 16,
            reader.addressable(),
            reader.data == old(reader).data,
            data == reader.data@,
            part == i32_part(data, width as nat),
            all == repeat(part, old(reader).cursor as nat, count as nat),
            all == repeat_from(part, reader.cursor as nat, (count - i) as nat, values@),
        decreases count - i,
    {
        if !reader.has_bits(width) {
            return Err(incomplete_setup());
        }
        proof {
            lemma_bits_value_bound(data, reader.cursor as nat, width as nat);
            lemma2_to64();
            if width < 16 {
                vstd::arithmetic::power2::lemma_pow2_strictly_increases(width as nat, 16);
            }
        }
        let value = reader.read_uint_n(width) as i32;
        values.push(value);
        i += 1;
    }
    Ok(values)
}

/// Reads `count` numbers of codebooks, none of them above `limit`.
pub fn read_book_list(reader: &mut BitStreamReader, count: usize, limit: u16) -> (result: Result<
    Vec<u8>,
    VorbisFormatError,
>)
    requires
        old(reader).addressable(),
    ensures
        final(reader).data == old(reader).data,
        result is Ok <==> repeat(
            book_part(old(reader).data@, limit as nat),
            old(reader).cursor as nat,
            count as nat,
        ) is Some,
        result is Ok ==> repeat(
            book_part(old(reader).data@, limit as nat),
            old(reader).cursor as nat,
            count as nat,
        ) == Some((result->Ok_0@, final(reader).cursor as nat)),
{
    let ghost data = reader.data@;
    let ghost part = book_part(data, limit as nat);
    let ghost all = repeat(part, reader.cursor as nat, count as nat);
    let mut values: Vec<u8> = Vec::new();
    let mut i: usize = 0;
    while i < count
        invariant
            i <= count,
            reader.addressable(),
            reader.data == old(reader).data,
            data == reader.data@,
            part == book_part(data, limit as nat),
            all == repeat(part, old(reader).cursor as nat, count as nat),
            all == repeat_from(part, reader.cursor as nat, (count - i) as nat, values@),
        decreases count - i,
    {
        if !reader.has_bits(8) {
            return Err(incomplete_setup());
        }
        let book = reader.read_uint8();
        if book as u16 > limit {
            return Err(VorbisFormatError("Invalid book number".to_string()));
        }
        values.push(book);
        i += 1;
    }
    Ok(values)
}

impl OggVorbisPage {
    /// Reads a floor of type 0. Fails when the data end before the floor
    /// does, and when the floor names a codebook with a number above
    /// `codebook_count`.
    pub fn parse_floor_type0(reader: &mut BitStreamReader, codebook_count: u16) -> (result: Result<
        IVorbisFloorType0,
        VorbisFormatError,
    >)
        requires
            old(reader).addressable(),
        ensures
            final(reader).data == old(reader).data,
            result is Ok <==> floor0_at(
                old(reader).data@,
                old(reader).cursor as nat,
                codebook_count as nat,
            ) is Some,
            result is Ok ==> floor0_at(
                old(reader).data@,
                old(reader).cursor as nat,
                codebook_count as nat,
            ) == Some((result->Ok_0@, final(reader).cursor as nat)),
    {
        if !reader.has_bits(58) {
            return Err(incomplete_setup());
        }
        let order = reader.read_uint8();
        let rate = reader.read_uint16();
        let bark_map_size = reader.read_uint16();
        let amplitude_bits = reader.read_uint6();
        let amplitude_offset = reader.read_uint8();
        let number_of_books = reader.read_uint4() + 1;
        let book_list = read_book_list(reader, number_of_books as usize, codebook_count)?;
        Ok(
            IVorbisFloorType0 {
                order,
                rate,
                bark_map_size,
                amplitude_bits,
                amplitude_offset,
                number_of_books,
                book_list,
            },
        )
    }
}

/// A class of a floor of type 1.
pub struct FloorClass {
    pub dimensions: u8,
    pub subclasses: u8,
    pub masterbook: i32,
    pub books: Seq<i32>,
}

/// The number of subclass books of a class: two to the power of its
/// number of subclass bits.
pub open spec fn subclass_count(subclasses: nat) -> nat {
    if subclasses == 0 {
        1
    } else if subclasses == 1 {
        2
    } else if subclasses == 2 {
        4
    } else {
        8
    }
}

/// The eight subclass books of a class that has `used` of them from `at`
/// on: each is one less than the number read, and those not used are -1.
pub open spec fn subclass_books(data: Seq<u8>, at: nat, used: nat, count: nat) -> Seq<i32> {
    Seq::new(
        count,
        |j: int|
            if j < used {
                (bits_value(data, (at + 8 * j) as nat, 8) - 1) as i32
            } else {
                -1i32
            },
    )
}

/// A class of a floor of type 1: its dimensions less one, its number of
/// subclass bits, its master book if it has subclass bits, and its
/// subclass books.
pub open spec fn class_at(data: Seq<u8>, at: nat) -> Read<FloorClass> {
    if !within(data, at, 5) {
        None
    } else {
        let subclasses = bits_value(data, at + 3, 2);
        let master: nat = if subclasses > 0 {
            8
        } else {
            0
        };
        let used = subclass_count(subclasses);
        if !within(data, at + 5, master + 8 * used) {
            None
        } else {
            Some(
                (
                    FloorClass {
                        dimensions: (bits_value(data, at, 3) + 1) as u8,
                        subclasses: subclasses as u8,
                        masterbook: if subclasses > 0 {
                            bits_value(data, at + 5, 8) as i32
                        } else {
                            -1i32
                        },
                        books: subclass_books(data, at + 5 + master, used, 8),
                    },
                    at + 5 + master + 8 * used,
                ),
            )
        }
    }
}

/// The reading of classes, one behind the other.
pub open spec fn class_part(data: Seq<u8>) -> spec_fn(nat) -> Read<FloorClass> {
    |at: nat| class_at(data, at)
}

/// The largest of a list of numbers, zero for no numbers.
pub open spec fn largest(values: Seq<u8>) -> nat
    decreases values.len(),
{
    if values.len() == 0 {
        0
    } else if values.last() as nat > largest(values.drop_last()) {
        values.last() as nat
    } else {
        largest(values.drop_last())
    }
}

/// The number of X values that the partitions of a floor bring: for each
/// partition the dimensions of its class.
pub open spec fn x_count(class_list: Seq<u8>, classes: Seq<FloorClass>) -> nat
    decreases class_list.len(),
{
    if class_list.len() == 0 {
        0
    } else {
        x_count(class_list.drop_last(), classes) + classes[class_list.last() as int].dimensions as nat
    }
}

/// No number stands twice in the list.
pub open spec fn all_differ(values: Seq<i32>) -> bool {
    forall|i: int, j: int| 0 <= i < j < values.len() ==> values[i] != values[j]
}

/// The dimensions of each of a list of classes.
pub open spec fn dimensions_of(classes: Seq<FloorClass>) -> Seq<u8> {
    Seq::new(classes.len(), |i: int| classes[i].dimensions)
}

/// The number of subclass bits of each of a list of classes.
pub open spec fn subclasses_of(classes: Seq<FloorClass>) -> Seq<u8> {
    Seq::new(classes.len(), |i: int| classes[i].subclasses)
}

/// The master book of each of a list of classes.
pub open spec fn masterbooks_of(classes: Seq<FloorClass>) -> Seq<i32> {
    Seq::new(classes.len(), |i: int| classes[i].masterbook)
}

/// The subclass books of each of a list of classes.
pub open spec fn books_of(classes: Seq<FloorClass>) -> Seq<Seq<i32>> {
    Seq::new(classes.len(), |i: int| classes[i].books)
}

/// A floor of type 1: the classes of its partitions, the classes
/// themselves, a multiplier, and the X values, which start with zero and
/// two to the power of the range bits, must all differ and be at most 65.
pub open spec fn floor1_at(data: Seq<u8>, at: nat) -> Read<Floor1View> {
    if !within(data, at, 5) {
        None
    } else {
        let partitions = bits_value(data, at, 5);
        match repeat(u8_part(data, 4), at + 5, partitions) {
            None => None,
            Some((class_list, classes_start)) => {
                let class_count = if partitions == 0 {
                    0
                } else {
                    largest(class_list) + 1
                };
                match repeat(class_part(data), classes_start, class_count) {
                    None => None,
                    Some((classes, range_start)) => {
                        if !within(data, range_start, 6) {
                            None
                        } else {
                            let rangebits = bits_value(data, range_start + 2, 4);
                            let count = x_count(class_list, classes);
                            match repeat(i32_part(data, rangebits), range_start + 6, count) {
                                None => None,
                                Some((read, end)) => {
                                    let x_list = seq![0i32, pow2(rangebits) as i32] + read;
                                    if !all_differ(x_list) || x_list.len() > 65 {
                                        None
                                    } else {
                                        Some(
                                            (
                                                Floor1View {
                                                    partitions: partitions as u8,
                                                    partition_class_list: class_list,
                                                    class_dimensions: dimensions_of(classes),
                                                    class_subclasses: subclasses_of(classes),
                                                    class_masterbooks: masterbooks_of(classes),
                                                    subclass_books: books_of(classes),
                                                    multiplier: (bits_value(data, range_start, 2)
                                                        + 1) as u8,
                                                    rangebits: rangebits as u8,
                                                    x_list,
                                                    values: (2 + count) as u8,
                                                },
                                                end,
                                            ),
                                        )
                                    }
                                },
                            }
                        }
                    },
                }
            },
        }
    }
}

/// The parts of a class as they are read.
pub struct ClassParts {
    pub dimensions: u8,
    pub subclasses: u8,
    pub masterbook: i32,
    pub books: Vec<i32>,
}

impl View for ClassParts {
    type V = FloorClass;

    open spec fn view(&self) -> FloorClass {
        FloorClass {
            dimensions: self.dimensions,
            subclasses: self.subclasses,
            masterbook: self.masterbook,
            books: self.books@,
        }
    }
}

/// Reads a class of a floor of type 1.
pub fn parse_floor_class(reader: &mut BitStreamReader) -> (result: Result<
    ClassParts,
    VorbisFormatError,
>)
    requires
        old(reader).addressable(),
    ensures
        final(reader).data == old(reader).data,
        result is Ok <==> class_at(old(reader).data@, old(reader).cursor as nat) is Some,
        result is Ok ==> class_at(old(reader).data@, old(reader).cursor as nat) == Some(
            (result->Ok_0@, final(reader).cursor as nat),
        ),
        result is Ok ==> 1 <= result->Ok_0.dimensions <= 8,
{
    let ghost data = reader.data@;
    let ghost at = reader.cursor as nat;
    if !reader.has_bits(5) {
        return Err(incomplete_setup());
    }
    let dimensions = reader.read_uint3() + 1;
    let subclasses = reader.read_uint2();
    let used: usize = if subclasses == 0 {
        1
    } else if subclasses == 1 {
        2
    } else if subclasses == 2 {
        4
    } else {
        8
    };
    let master: usize = if subclasses > 0 {
        8
    } else {
        0
    };
    if !reader.has_bits(master + 8 * used) {
        return Err(incomplete_setup());
    }
    let masterbook: i32 = if subclasses > 0 {
        reader.read_uint8() as i32
    } else {
        -1
    };
    let ghost start = reader.cursor as nat;
    let mut books: Vec<i32> = Vec::new();
    let mut j: usize = 0;
    while j < 8
        invariant
            j <= 8,
            1 <= used <= 8,
            reader.addressable(),
            reader.data == old(reader).data,
            data == reader.data@,
            start + 8 * used <= 8 * data.len(),
            reader.cursor == start + 8 * (if j < used {
                j
            } else {
                used
            }),
            books@ == subclass_books(data, start, used as nat, j as nat),
        decreases 8 - j,
    {
        if j < used {
            let book = reader.read_uint8() as i32 - 1;
            books.push(book);
        } else {
            books.push(-1);
        }
        proof {
            assert(books@ =~= subclass_books(data, start, used as nat, (j + 1) as nat));
        }
        j += 1;
    }
    Ok(ClassParts { dimensions, subclasses, masterbook, books })
}

/// Whether no number stands twice in the list.
pub fn all_distinct(values: &Vec<i32>) -> (distinct: bool)
    ensures
        distinct == all_differ(values@),
{
    let mut j: usize = 0;
    while j < values.len()
        invariant
            j <= values@.len(),
            forall|a: int, b: int| 0 <= a < b < j ==> values@[a] != values@[b],
        decreases values@.len() - j,
    {
        let mut i: usize = 0;
        while i < j
            invariant
                i <= j < values@.len(),
                forall|a: int| 0 <= a < i ==> values@[a] != values@[j as int],
            decreases j - i,
        {
            if values[i] == values[j] {
                return false;
            }
            i += 1;
        }
        j += 1;
    }
    true
}

/// No number of a list is above the largest.
pub proof fn lemma_largest(values: Seq<u8>, index: int)
    requires
        0 <= index < values.len(),
    ensures
        values[index] <= largest(values),
    decreases values.len(),
{
    if index < values.len() - 1 {
        lemma_largest(values.drop_last(), index);
    }
}

/// The largest of a list of numbers, zero for no numbers.
fn largest_of(values: &Vec<u8>) -> (maximum: u8)
    ensures
        maximum == largest(values@),
{
    let mut maximum: u8 = 0;
    let mut i: usize = 0;
    proof {
        assert(values@.subrange(0, 0) =~= Seq::<u8>::empty());
    }
    while i < values.len()
        invariant
            i <= values@.len(),
            maximum == largest(values@.subrange(0, i as int)),
        decreases values@.len() - i,
    {
        proof {
            assert(values@.subrange(0, i + 1).drop_last() =~= values@.subrange(0, i as int));
        }
        if values[i] > maximum {
            maximum = values[i];
        }
        i += 1;
    }
    proof {
        assert(values@.subrange(0, i as int) =~= values@);
    }
    maximum
}

/// The classes of a floor as they are kept: one list for each of their
/// parts.
pub struct ClassTable {
    pub dimensions: Vec<u8>,
    pub subclasses: Vec<u8>,
    pub masterbooks: Vec<i32>,
    pub books: Vec<Vec<i32>>,
}

impl ClassTable {
    /// The lists hold the parts of these classes, whose dimensions are
    /// from 1 to 8.
    pub open spec fn holds(&self, classes: Seq<FloorClass>) -> bool {
        &&& self.dimensions@ == dimensions_of(classes)
        &&& self.subclasses@ == subclasses_of(classes)
        &&& self.masterbooks@ == masterbooks_of(classes)
        &&& rows_view(self.books@) == books_of(classes)
        &&& forall|k: int| 0 <= k < classes.len() ==> 1 <= (#[trigger] classes[k]).dimensions <= 8
    }
}

proof fn lemma_columns_push(classes: Seq<FloorClass>, class: FloorClass)
    ensures
        dimensions_of(classes.push(class)) == dimensions_of(classes).push(class.dimensions),
        subclasses_of(classes.push(class)) == subclasses_of(classes).push(class.subclasses),
        masterbooks_of(classes.push(class)) == masterbooks_of(classes).push(class.masterbook),
        books_of(classes.push(class)) == books_of(classes).push(class.books),
{
    assert(dimensions_of(classes.push(class)) =~= dimensions_of(classes).push(class.dimensions));
    assert(subclasses_of(classes.push(class)) =~= subclasses_of(classes).push(class.subclasses));
    assert(masterbooks_of(classes.push(class)) =~= masterbooks_of(classes).push(class.masterbook));
    assert(books_of(classes.push(class)) =~= books_of(classes).push(class.books));
}

/// One more row adds its view to the views of the others.
pub proof fn lemma_rows_view_push(rows: Seq<Vec<i32>>, row: Vec<i32>)
    ensures
        rows_view(rows.push(row)) == rows_view(rows).push(row@),
{
    assert(rows_view(rows.push(row)) =~= rows_view(rows).push(row@));
}

/// Reads `count` classes of a floor of type 1.
fn read_classes(reader: &mut BitStreamReader, count: usize) -> (result: Result<
    ClassTable,
    VorbisFormatError,
>)
    requires
        old(reader).addressable(),
    ensures
        final(reader).data == old(reader).data,
        result is Ok <==> repeat(
            class_part(old(reader).data@),
            old(reader).cursor as nat,
            count as nat,
        ) is Some,
        result is Ok ==> {
            let read = repeat(
                class_part(old(reader).data@),
                old(reader).cursor as nat,
                count as nat,
            );
            &&& read->Some_0.1 == final(reader).cursor
            &&& read->Some_0.0.len() == count
            &&& result->Ok_0.holds(read->Some_0.0)
        },
{
    let ghost data = reader.data@;
    let ghost part = class_part(data);
    let ghost all = repeat(part, reader.cursor as nat, count as nat);
    let ghost mut classes: Seq<FloorClass> = Seq::empty();
    let mut table = ClassTable {
        dimensions: Vec::new(),
        subclasses: Vec::new(),
        masterbooks: Vec::new(),
        books: Vec::new(),
    };
    let mut i: usize = 0;
    proof {
        assert(dimensions_of(classes) =~= Seq::<u8>::empty());
        assert(subclasses_of(classes) =~= Seq::<u8>::empty());
        assert(masterbooks_of(classes) =~= Seq::<i32>::empty());
        assert(books_of(classes) =~= Seq::<Seq<i32>>::empty());
        assert(rows_view(table.books@) =~= Seq::<Seq<i32>>::empty());
    }
    while i < count
        invariant
            i <= count,
            reader.addressable(),
            reader.data == old(reader).data,
            data == reader.data@,
            part == class_part(data),
            all == repeat(part, old(reader).cursor as nat, count as nat),
            all == repeat_from(part, reader.cursor as nat, (count - i) as nat, classes),
            classes.len() == i,
            table.holds(classes),
        decreases count - i,
    {
        let class = match parse_floor_class(reader) {
            Ok(class) => class,
            Err(e) => {
                return Err(e);
            },
        };
        proof {
            lemma_columns_push(classes, class@);
            lemma_rows_view_push(table.books@, class.books);
            classes = classes.push(class@);
        }
        table.dimensions.push(class.dimensions);
        table.subclasses.push(class.subclasses);
        table.masterbooks.push(class.masterbook);
        table.books.push(class.books);
        i += 1;
    }
    Ok(table)
}

/// The number of X values that the partitions of a floor bring.
fn count_x(class_list: &Vec<u8>, dimensions: &Vec<u8>, Ghost(classes): Ghost<Seq<FloorClass>>) -> (count:
    usize)
    requires
        class_list@.len() <= 31,
        dimensions@ == dimensions_of(classes),
        forall|k: int| 0 <= k < class_list@.len() ==> (#[trigger] class_list@[k]) < classes.len(),
        forall|k: int| 0 <= k < classes.len() ==> 1 <= (#[trigger] classes[k]).dimensions <= 8,
    ensures
        count == x_count(class_list@, classes),
        count <= 248,
{
    let ghost list = class_list@;
    let mut count: usize = 0;
    let mut p: usize = 0;
    proof {
        assert(list.subrange(0, 0) =~= Seq::<u8>::empty());
    }
    while p < class_list.len()
        invariant
            p <= list.len() <= 31,
            list == class_list@,
            dimensions@ == dimensions_of(classes),
            forall|k: int| 0 <= k < list.len() ==> (#[trigger] list[k]) < classes.len(),
            forall|k: int| 0 <= k < classes.len() ==> 1 <= (#[trigger] classes[k]).dimensions <= 8,
            count == x_count(list.subrange(0, p as int), classes),
            count <= 8 * p,
        decreases list.len() - p,
    {
        proof {
            assert(list.subrange(0, p + 1).drop_last() =~= list.subrange(0, p as int));
            assert(list.subrange(0, p + 1).last() == list[p as int]);
            assert(dimensions@[list[p as int] as int] == classes[list[p as int] as int].dimensions);
        }
        count += dimensions[class_list[p] as usize] as usize;
        p += 1;
    }
    proof {
        assert(list.subrange(0, p as int) =~= list);
    }
    count
}

/// The X values of a floor of type 1: zero, two to the power of the range
/// bits, and the values read.
fn x_values(read: &Vec<i32>, rangebits: u8) -> (x_list: Vec<i32>)
    requires
        rangebits < 16,
    ensures
        x_list@ == seq![0i32, pow2(rangebits as nat) as i32] + read@,
{
    proof {
        lemma2_to64();
        if rangebits < 15 {
            vstd::arithmetic::power2::lemma_pow2_strictly_increases(rangebits as nat, 15);
        }
        vstd::bits::lemma_u32_shl_is_mul(1u32, rangebits as u32);
    }
    let mut x_list: Vec<i32> = Vec::new();
    x_list.push(0);
    x_list.push((1u32 << (rangebits as u32)) as i32);
    crate::ogg_page::append_range(&mut x_list, read.as_slice(), 0, read.len());
    proof {
        assert(read@.subrange(0, read@.len() as int) =~= read@);
        assert(x_list@ =~= seq![0i32, pow2(rangebits as nat) as i32] + read@);
    }
    x_list
}

impl OggVorbisPage {
    /// Reads a floor of type 1. Fails when the data end before the floor
    /// does, when two of its X values are the same, and when it has more
    /// than 65 X values.
    pub fn parse_floor_type1(reader: &mut BitStreamReader) -> (result: Result<
        IVorbisFloorType1,
        VorbisFormatError,
    >)
        requires
            old(reader).addressable(),
        ensures
            final(reader).data == old(reader).data,
            result is Ok <==> floor1_at(old(reader).data@, old(reader).cursor as nat) is Some,
            result is Ok ==> floor1_at(old(reader).data@, old(reader).cursor as nat) == Some(
                (result->Ok_0@, final(reader).cursor as nat),
            ),
    {
        let ghost data = reader.data@;
        let ghost at = reader.cursor as nat;
        if !reader.has_bits(5) {
            return Err(incomplete_setup());
        }
        let partitions = reader.read_uint5();
        let partition_class_list = read_u8_list(reader, partitions as usize, 4)?;
        let maximum_class = largest_of(&partition_class_list);
        let class_count: usize = if partitions == 0 {
            0
        } else {
            maximum_class as usize + 1
        };
        let ghost classes_start = reader.cursor as nat;
        let table = read_classes(reader, class_count)?;
        let ghost classes = repeat(class_part(data), classes_start, class_count as nat)->Some_0.0;
        let ghost range_start = reader.cursor as nat;
        if !reader.has_bits(6) {
            return Err(incomplete_setup());
        }
        let multiplier = reader.read_uint2() + 1;
        let rangebits = reader.read_uint4();
        proof {
            lemma_list_length(u8_part(data, 4), at + 5, partitions as nat);
            assert forall|k: int| 0 <= k < partition_class_list@.len() implies (
            #[trigger] partition_class_list@[k]) < classes.len() by {
                lemma_largest(partition_class_list@, k);
            }
        }
        let count = count_x(&partition_class_list, &table.dimensions, Ghost(classes));
        let read = read_i32_list(reader, count, rangebits as usize)?;
        let x_list = x_values(&read, rangebits);
        if !all_distinct(&x_list) {
            return Err(VorbisFormatError("Non-unique X values in floor1_X_list".to_string()));
        }
        if x_list.len() > 65 {
            return Err(VorbisFormatError("floor1_X_list length exceeds 65 elements".to_string()));
        }
        let values = (2 + count) as u8;
        Ok(
            IVorbisFloorType1 {
                partitions,
                partition_class_list,
                class_dimensions: table.dimensions,
                class_subclasses: table.subclasses,
                class_masterbooks: table.masterbooks,
                subclass_books: table.books,
                multiplier,
                rangebits,
                x_list,
                values,
            },
        )
    }
}

} // verus!
