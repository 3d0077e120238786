use vstd::prelude::*;

verus! {

/// Flag bit that marks an unsigned integer column.
pub const UNSIGNED_FLAG: u64 = 32;

/// Column type code of `TIMESTAMP`.
pub const TYPE_TIMESTAMP: u8 = 7;

/// Column type code of `BIGINT`.
pub const TYPE_LONG_LONG: u8 = 8;

/// Column type code of `DATETIME`.
pub const TYPE_DATETIME: u8 = 12;

/// Column type code of fixed-length `CHAR`.
pub const TYPE_STRING: u8 = 254;

/// Length or decimal count of a column that leaves it open.
pub const UNSPECIFIED_LENGTH: i32 = -1;

/// Greatest fractional-second precision of a time value.
pub const MAX_FSP: u8 = 6;

/// Fractional-second precision used when none is given.
pub const DEFAULT_FSP: i8 = 0;

/// The description of a column type that the casts read.
#[derive(Debug)]
pub struct FieldType {
    /// Column type code.
    pub tp: i32,
    /// Flag word (unsigned, not-null, ...).
    pub flag: u32,
    /// Display length: characters for UTF-8 text, bytes for other text.
    pub flen: i32,
    /// Number of decimals, or fractional-second precision for times.
    pub decimal: i32,
    /// Name of the character set.
    pub charset: String,
}

/// `"utf8"` and `"utf8mb4"` are the character sets whose lengths count characters.
pub open spec fn spec_is_utf8_charset(charset: Seq<char>) -> bool {
    charset == seq!['u', 't', 'f', '8'] || charset == seq!['u', 't', 'f', '8', 'm', 'b', '4']
}

/// Whether `flag` carries the unsigned marker.
pub fn has_unsigned_flag(flag: u64) -> (res: bool)
    ensures
        res == (flag & UNSIGNED_FLAG != 0),
{
    flag & UNSIGNED_FLAG != 0
}

/// Whether the character set counts lengths in characters.
pub fn is_utf8_charset(charset: &String) -> (res: bool)
    ensures
        res == spec_is_utf8_charset(charset@),
{
    let utf8 = String::from_str("utf8");
    let utf8mb4 = String::from_str("utf8mb4");
    proof {
        reveal_strlit("utf8");
        reveal_strlit("utf8mb4");
        assert("utf8"@ =~= seq!['u', 't', 'f', '8']);
        assert("utf8mb4"@ =~= seq!['u', 't', 'f', '8', 'm', 'b', '4']);
    }
    *charset == utf8 || *charset == utf8mb4
}

impl FieldType {
    /// The column is an unsigned integer column.
    pub open spec fn spec_is_unsigned(&self) -> bool {
        self.flag as u64 & UNSIGNED_FLAG != 0
    }

    /// Both length and decimal count are given; the target of a numeric
    /// conversion is then the pair of them, each cut to a byte.
    pub open spec fn spec_specified_flen_decimal(&self) -> Option<(u8, u8)> {
        if self.flen == UNSPECIFIED_LENGTH || self.decimal == UNSPECIFIED_LENGTH {
            None
        } else {
            Some((self.flen as u8, self.decimal as u8))
        }
    }

    /// Whether the column is an unsigned integer column.
    pub fn is_unsigned(&self) -> (res: bool)
        ensures
            res == self.spec_is_unsigned(),
    {
        has_unsigned_flag(self.flag as u64)
    }

    /// The length and decimal count that a decimal or float is fitted to, or
    /// `None` when either is left unspecified and the value passes unchanged.
    pub fn specified_flen_decimal(&self) -> (res: Option<(u8, u8)>)
        ensures
            res == self.spec_specified_flen_decimal(),
    {
        if self.flen == UNSPECIFIED_LENGTH || self.decimal == UNSPECIFIED_LENGTH {
            None
        } else {
            Some((self.flen as u8, self.decimal as u8))
        }
    }
}

/// Only the UNSIGNED bit (32) of a column's flag word makes it unsigned: a flag
/// with that bit is unsigned, one without it is signed, and the other bits (such
/// as NOT NULL, 1) never change the reading.
pub proof fn lemma_unsigned_is_the_unsigned_bit(a: FieldType, b: FieldType)
    ensures
        a.spec_is_unsigned() <==> (a.flag & 32u32) == 32u32,
        (a.flag & 32u32) == (b.flag & 32u32) ==> a.spec_is_unsigned() == b.spec_is_unsigned(),
        (a.flag | 1u32) & 32u32 == a.flag & 32u32,
{
    let fa = a.flag;
    let fb = b.flag;
    assert((fa as u64 & 32u64 != 0) <==> (fa & 32u32) == 32u32) by (bit_vector);
    assert((fb as u64 & 32u64 != 0) <==> (fb & 32u32) == 32u32) by (bit_vector);
    assert((fa | 1u32) & 32u32 == fa & 32u32) by (bit_vector);
}

/// The numeric target is absent exactly when the length or the decimal count is
/// unspecified (-1); otherwise it is the pair itself whenever both fit in a byte,
/// zero decimals included.
pub proof fn lemma_specified_target(ft: FieldType)
    ensures
        ft.spec_specified_flen_decimal() is None <==> (ft.flen == -1 || ft.decimal == -1),
        (0 <= ft.flen < 256 && 0 <= ft.decimal < 256) ==> (ft.spec_specified_flen_decimal() matches Some(
            (l, d),
        ) && l as int == ft.flen as int && d as int == ft.decimal as int),
{
}

/// Exactly the character sets named `utf8` and `utf8mb4` count lengths in
/// characters; every other name (such as `latin1` or `binary`) counts bytes.
pub proof fn lemma_only_utf8_charsets_count_chars(c: Seq<char>)
    ensures
        spec_is_utf8_charset(c) <==> (c == "utf8"@ || c == "utf8mb4"@),
        !spec_is_utf8_charset("latin1"@),
        !spec_is_utf8_charset("binary"@),
{
    reveal_strlit("utf8");
    reveal_strlit("utf8mb4");
    reveal_strlit("latin1");
    reveal_strlit("binary");
    assert("utf8"@ =~= seq!['u', 't', 'f', '8']);
    assert("utf8mb4"@ =~= seq!['u', 't', 'f', '8', 'm', 'b', '4']);
    assert("latin1"@.len() == 6);
    assert("binary"@.len() == 6);
}

} // verus!
