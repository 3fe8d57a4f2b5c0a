use vstd::prelude::*;

use crate::text::Token;

verus! {

/// A type whose values can be logged: it has a schema, and it writes its values
/// into a byte buffer in the layout that its schema describes.
pub trait Encode {
    /// The schema bytes of the type.
    spec fn spec_schema() -> Seq<u8>;

    /// The bytes that `encode_to` writes for this value.
    spec fn spec_encoding(&self) -> Seq<u8>;

    /// The buffer size that `encoded_size` reports for this value.
    spec fn spec_encoded_size(&self) -> nat;

    /// The string table (null-terminated names) that the schema's name offsets refer to.
    spec fn spec_string_table(&self) -> Seq<u8>;

    fn schema() -> (r: Vec<u8>)
        ensures
            r@ == Self::spec_schema(),
    ;

    /// Writes the encoding at the start of `buf`; returns the number of bytes written.
    fn encode_to(&self, buf: &mut [u8]) -> (n: usize)
        requires
            self.spec_encoding().len() <= old(buf)@.len(),
        ensures
            n == self.spec_encoding().len(),
            final(buf)@ == self.spec_encoding() + old(buf)@.subrange(n as int, old(buf)@.len() as int),
    ;

    fn encoded_size(&self) -> (n: usize)
        requires
            self.spec_encoded_size() <= usize::MAX,
        ensures
            n == self.spec_encoded_size(),
    ;

    fn string_table(&self) -> (r: Vec<u8>)
        ensures
            r@ == self.spec_string_table(),
    ;
}

/// The schema of the type of `_value`.
pub fn schema_of<T: Encode>(_value: &T) -> (r: Vec<u8>)
    ensures
        r@ == T::spec_schema(),
{
    T::schema()
}

/// The length of the schema of the type of `_value`.
pub fn schema_len<T: Encode>(_value: &T) -> (r: usize)
    ensures
        r == T::spec_schema().len(),
{
    T::schema().len()
}

/// A type whose schema names fields or variants through a string table.
pub trait HasStringTable {
    spec fn spec_table() -> Seq<u8>;

    fn string_table_bytes() -> (r: Vec<u8>)
        ensures
            r@ == Self::spec_table(),
    ;
}

/// The string table of the type of `_value`.
pub fn string_table_of<T: HasStringTable>(_value: &T) -> (r: Vec<u8>)
    ensures
        r@ == T::spec_table(),
{
    T::string_table_bytes()
}

/// Names the schema of a type without a value of it.
pub trait SchemaOf {
    spec fn spec_schema_of() -> Seq<u8>;

    fn schema_of() -> (r: Vec<u8>)
        ensures
            r@ == Self::spec_schema_of(),
    ;
}

impl<T: Encode> SchemaOf for T {
    open spec fn spec_schema_of() -> Seq<u8> {
        T::spec_schema()
    }

    fn schema_of() -> (r: Vec<u8>) {
        T::schema()
    }
}

/// A formatter for `USER_DEFINED` schema entries, supplied by the user.
///
/// `spec_format` is the implementor's statement of what `format` does on a payload:
/// how many payload bytes it consumes and what it renders.
pub trait UserFormatter: Send + Sync {
    spec fn spec_format(&self, payload: Seq<u8>) -> (usize, Seq<Token>);

    fn format(&self, payload: &[u8], w: &mut Vec<Token>) -> (used: usize)
        ensures
            used == self.spec_format(payload@).0,
            final(w)@ == old(w)@ + self.spec_format(payload@).1,
    ;
}

/// A formatter list with no entries can use this type; it consumes and renders nothing.
pub struct NoUserFormatter;

impl UserFormatter for NoUserFormatter {
    open spec fn spec_format(&self, payload: Seq<u8>) -> (usize, Seq<Token>) {
        (0, Seq::empty())
    }

    fn format(&self, payload: &[u8], w: &mut Vec<Token>) -> (used: usize) {
        0
    }
}

} // verus!
