//! The residues of a Vorbis setup header.

use crate::bit_stream::{bits_value, BitStreamReader};
use crate::ogg_vorbis_page::{OggVorbisPage, VorbisFormatError};
use crate::setup_floor::lemma_rows_view_push;
use crate::vorbis_setup::{
    incomplete_setup, repeat, repeat_from, rows_view, within, IVorbisResidue, Read, ResidueView,
};
use vstd::prelude::*;

verus! {

/// The cascade of one classification: three low bits, a flag, and five
/// high bits if the flag is set.
pub open spec fn cascade_at(data: Seq<u8>, at: nat) -> Read<u8> {
    if !within(data, at, 4) {
        None
    } else if bits_value(data, at + 3, 1) == 1 {
        if !within(data, at + 4, 5) {
            None
        } else {
            Some(((bits_value(data, at + 4, 5) * 8 + bits_value(data, at, 3)) as u8, at + 9))
        }
    } else {
        Some((bits_value(data, at, 3) as u8, at + 4))
    }
}

/// The reading of cascades, one behind the other.
pub open spec fn cascade_part(data: Seq<u8>) -> spec_fn(nat) -> Read<u8> {
    |at: nat| cascade_at(data, at)
}

/// The pass `pass` of a cascade has a codebook.
pub open spec fn has_book(cascade: u8, pass: u8) -> bool {
    cascade & (1u8 << pass) != 0
}

/// The codebooks of one classification from the pass `pass` on, behind
/// those in `so_far`: for each pass that the cascade names a codebook
/// number below `limit`, and -1 for each other pass.
pub open spec fn row_from(
    data: Seq<u8>,
    at: nat,
    cascade: u8,
    limit: nat,
    pass: nat,
    so_far: Seq<i32>,
) -> Read<Seq<i32>>
    decreases 8 - pass,
{
    if pass >= 8 {
        Some((so_far, at))
    } else if has_book(cascade, pass as u8) {
        if !within(data, at, 8) || bits_value(data, at, 8) >= limit {
            None
        } else {
            row_from(
                data,
                at + 8,
                cascade,
                limit,
                pass + 1,
                so_far.push(bits_value(data, at, 8) as i32),
            )
        }
    } else {
        row_from(data, at, cascade, limit, pass + 1, so_far.push(-1i32))
    }
}

/// The codebooks of the classifications from `index` on, behind those in
/// `so_far`.
pub open spec fn rows_from(
    data: Seq<u8>,
    at: nat,
    cascades: Seq<u8>,
    limit: nat,
    index: nat,
    so_far: Seq<Seq<i32>>,
) -> Read<Seq<Seq<i32>>>
    decreases cascades.len() - index,
{
    if index >= cascades.len() {
        Some((so_far, at))
    } else {
        match row_from(data, at, cascades[index as int], limit, 0, Seq::empty()) {
            Some((row, next)) => rows_from(data, next, cascades, limit, index + 1, so_far.push(row)),
            None => None,
        }
    }
}

/// A residue: its type, which is at most 2, three numbers of 24 bits,
/// the number of its classifications less one, its class book, which must
/// be the number of a codebook, the cascades of its classifications, and
/// their codebooks.
pub open spec fn residue_at(data: Seq<u8>, at: nat, codebook_count: nat) -> Read<ResidueView> {
    if !within(data, at, 102) {
        None
    } else if bits_value(data, at, 16) > 2 || bits_value(data, at + 94, 8) >= codebook_count {
        None
    } else {
        let classifications = bits_value(data, at + 88, 6) + 1;
        match repeat(cascade_part(data), at + 102, classifications) {
            None => None,
            Some((cascade, books_start)) => match rows_from(
                data,
                books_start,
                cascade,
                codebook_count,
                0,
                Seq::empty(),
            ) {
                None => None,
                Some((books, end)) => Some(
                    (
                        ResidueView {
                            residue_type: bits_value(data, at, 16) as u16,
                            begin: bits_value(data, at + 16, 24) as u32,
                            end: bits_value(data, at + 40, 24) as u32,
                            partition_size: (bits_value(data, at + 64, 24) + 1) as u32,
                            classifications: classifications as u8,
                            classbook: bits_value(data, at + 94, 8) as u8,
                            cascade,
                            books,
                        },
                        end,
                    ),
                ),
            },
        }
    }
}

/// Reads the cascades of `count` classifications.
fn read_cascades(reader: &mut BitStreamReader, count: usize) -> (result: Result<
    Vec<u8>,
    VorbisFormatError,
>)
    requires
        old(reader).addressable(),
    ensures
        final(reader).data == old(reader).data,
        result is Ok <==> repeat(
            cascade_part(old(reader).data@),
            old(reader).cursor as nat,
            count as nat,
        ) is Some,
        result is Ok ==> repeat(
            cascade_part(old(reader).data@),
            old(reader).cursor as nat,
            count as nat,
        ) == Some((result->Ok_0@, final(reader).cursor as nat)),
{
    let ghost data = reader.data@;
    let ghost part = cascade_part(data);
    let ghost all = repeat(part, reader.cursor as nat, count as nat);
    let mut cascade: Vec<u8> = Vec::new();
    let mut i: usize = 0;
    while i < count
        invariant
            i <= count,
            reader.addressable(),
            reader.data == old(reader).data,
            data == reader.data@,
            part == cascade_part(data),
            all == repeat(part, old(reader).cursor as nat, count as nat),
            all == repeat_from(part, reader.cursor as nat, (count - i) as nat, cascade@),
        decreases count - i,
    {
        if !reader.has_bits(4) {
            return Err(incomplete_setup());
        }
        let low_bits = reader.read_uint3();
        let bitflag = reader.read_bool();
        let high_bits = if bitflag {
            if !reader.has_bits(5) {
                return Err(incomplete_setup());
            }
            reader.read_uint5()
        } else {
            0
        };
        cascade.push(high_bits * 8 + low_bits);
        i += 1;
    }
    Ok(cascade)
}

/// Reads the codebooks of one classification.
fn read_row(reader: &mut BitStreamReader, cascade: u8, codebook_count: u16) -> (result: Result<
    Vec<i32>,
    VorbisFormatError,
>)
    requires
        old(reader).addressable(),
    ensures
        final(reader).data == old(reader).data,
        result is Ok <==> row_from(
            old(reader).data@,
            old(reader).cursor as nat,
            cascade,
            codebook_count as nat,
            0,
            Seq::empty(),
        ) is Some,
        result is Ok ==> row_from(
            old(reader).data@,
            old(reader).cursor as nat,
            cascade,
            codebook_count as nat,
            0,
            Seq::empty(),
        ) == Some((result->Ok_0@, final(reader).cursor as nat)),
{
    let ghost data = reader.data@;
    let ghost all = row_from(
        data,
        reader.cursor as nat,
        cascade,
        codebook_count as nat,
        0,
        Seq::empty(),
    );
    let mut row: Vec<i32> = Vec::new();
    let mut j: u8 = 0;
    while j < 8
        invariant
            j <= 8,
            reader.addressable(),
            reader.data == old(reader).data,
            data == reader.data@,
            all == row_from(
                data,
                old(reader).cursor as nat,
                cascade,
                codebook_count as nat,
                0,
                Seq::empty(),
            ),
            all == row_from(
                data,
                reader.cursor as nat,
                cascade,
                codebook_count as nat,
                j as nat,
                row@,
            ),
        decreases 8 - j,
    {
        if (cascade & (1u8 << j)) != 0 {
            if !reader.has_bits(8) {
                return Err(incomplete_setup());
            }
            let book = reader.read_uint8();
            if book as u16 >= codebook_count {
                return Err(VorbisFormatError("Invalid book number in residue_books".to_string()));
            }
            row.push(book as i32);
        } else {
            row.push(-1);
        }
        j += 1;
    }
    Ok(row)
}

/// Reads the codebooks of all classifications.
fn read_rows(reader: &mut BitStreamReader, cascades: &Vec<u8>, codebook_count: u16) -> (result:
    Result<Vec<Vec<i32>>, VorbisFormatError>)
    requires
        old(reader).addressable(),
    ensures
        final(reader).data == old(reader).data,
        result is Ok <==> rows_from(
            old(reader).data@,
            old(reader).cursor as nat,
            cascades@,
            codebook_count as nat,
            0,
            Seq::empty(),
        ) is Some,
        result is Ok ==> rows_from(
            old(reader).data@,
            old(reader).cursor as nat,
            cascades@,
            codebook_count as nat,
            0,
            Seq::empty(),
        ) == Some((rows_view(result->Ok_0@), final(reader).cursor as nat)),
{
    let ghost data = reader.data@;
    let ghost all = rows_from(
        data,
        reader.cursor as nat,
        cascades@,
        codebook_count as nat,
        0,
        Seq::empty(),
    );
    let mut books: Vec<Vec<i32>> = Vec::new();
    let mut i: usize = 0;
    proof {
        assert(rows_view(books@) =~= Seq::<Seq<i32>>::empty());
    }
    while i < cascades.len()
        invariant
            i <= cascades@.len(),
            reader.addressable(),
            reader.data == old(reader).data,
            data == reader.data@,
            all == rows_from(
                data,
                old(reader).cursor as nat,
                cascades@,
                codebook_count as nat,
                0,
                Seq::empty(),
            ),
            all == rows_from(
                data,
                reader.cursor as nat,
                cascades@,
                codebook_count as nat,
                i as nat,
                rows_view(books@),
            ),
        decreases cascades@.len() - i,
    {
        let row = match read_row(reader, cascades[i], codebook_count) {
            Ok(row) => row,
            Err(e) => {
                return Err(e);
            },
        };
        proof {
            lemma_rows_view_push(books@, row);
        }
        books.push(row);
        i += 1;
    }
    Ok(books)
}

impl OggVorbisPage {
    /// Reads a residue. Fails when the data end before the residue does,
    /// when its type is above 2, and when it names a codebook with a
    /// number that is not below `codebook_count`.
    pub fn parse_residue(reader: &mut BitStreamReader, codebook_count: u16) -> (result: Result<
        IVorbisResidue,
        VorbisFormatError,
    >)
        requires
            old(reader).addressable(),
        ensures
            final(reader).data == old(reader).data,
            result is Ok <==> residue_at(
                old(reader).data@,
                old(reader).cursor as nat,
                codebook_count as nat,
            ) is Some,
            result is Ok ==> residue_at(
                old(reader).data@,
                old(reader).cursor as nat,
                codebook_count as nat,
            ) == Some((result->Ok_0@, final(reader).cursor as nat)),
    {
        if !reader.has_bits(102) {
            return Err(incomplete_setup());
        }
        let residue_type = reader.read_uint16();
        if residue_type > 2 {
            return Err(VorbisFormatError("Invalid residue type".to_string()));
        }
        let begin = reader.read_uint24();
        let end = reader.read_uint24();
        let partition_size = reader.read_uint24() + 1;
        let classifications = reader.read_uint6() + 1;
        let classbook = reader.read_uint8();
        if classbook as u16 >= codebook_count {
            return Err(VorbisFormatError("Invalid classbook number".to_string()));
        }
        let cascade = read_cascades(reader, classifications as usize)?;
        let books = read_rows(reader, &cascade, codebook_count)?;
        Ok(
            IVorbisResidue {
                residue_type,
                begin,
                end,
                partition_size,
                classifications,
                classbook,
                cascade,
                books,
            },
        )
    }
}

} // verus!
