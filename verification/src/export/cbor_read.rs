use vstd::prelude::*;

verus! {

/// A CBOR value as far as the binary import reads it.
#[derive(Debug)]
pub enum CborScalar {
    Int(i128),
    Text(String),
    Bool(bool),
    /// Any other kind of value (bytes, float, null, tag, array, map).
    Other,
}

/// The mathematical value of a `CborScalar`.
pub enum CborScalarV {
    Int(i128),
    Text(Seq<char>),
    Bool(bool),
    Other,
}

impl View for CborScalar {
    type V = CborScalarV;

    open spec fn view(&self) -> CborScalarV {
        match self {
            CborScalar::Int(i) => CborScalarV::Int(*i),
            CborScalar::Text(t) => CborScalarV::Text(t@),
            CborScalar::Bool(b) => CborScalarV::Bool(*b),
            CborScalar::Other => CborScalarV::Other,
        }
    }
}

/// One decoded CBOR data item: the entries of a map, or `None` for any
/// other kind of item.
#[derive(Debug)]
pub struct CborItem {
    pub entries: Option<Vec<(CborScalar, CborScalar)>>,
}

pub open spec fn entries_view(e: Seq<(CborScalar, CborScalar)>) -> Seq<(CborScalarV, CborScalarV)> {
    e.map_values(|p: (CborScalar, CborScalar)| (p.0@, p.1@))
}

impl View for CborItem {
    type V = Option<Seq<(CborScalarV, CborScalarV)>>;

    open spec fn view(&self) -> Option<Seq<(CborScalarV, CborScalarV)>> {
        match &self.entries {
            Some(v) => Some(entries_view(v@)),
            None => None,
        }
    }
}

/// What ciborium decodes from the start of `data` into a `Value`: the number
/// of bytes it consumed and the item, `None` when decoding fails.
pub uninterp spec fn cbor_decoded(data: Seq<u8>) -> Option<(nat, Option<Seq<(CborScalarV, CborScalarV)>>)>;

#[verifier::external_type_specification]
#[verifier::external_body]
pub struct ExCborValue(ciborium::value::Value);

/// Converts a ciborium value, variant by variant.
#[verifier::external_body]
fn to_scalar(v: ciborium::value::Value) -> CborScalar {
    match v {
        ciborium::value::Value::Integer(i) => CborScalar::Int(i128::from(i)),
        ciborium::value::Value::Text(t) => CborScalar::Text(t),
        ciborium::value::Value::Bool(b) => CborScalar::Bool(b),
        _ => CborScalar::Other,
    }
}

/// Converts a ciborium value into an item: a map keeps its entries in order.
#[verifier::external_body]
fn to_item(v: ciborium::value::Value) -> CborItem {
    match v {
        ciborium::value::Value::Map(m) => CborItem {
            entries: Some(m.into_iter().map(|(k, x)| (to_scalar(k), to_scalar(x))).collect()),
        },
        _ => CborItem { entries: None },
    }
}

/// Calls `ciborium::de::from_reader` for a `ciborium::value::Value` on a
/// cursor over `data`. Claims that the outcome is `cbor_decoded(data)`, a
/// function of the bytes alone, and that on success the cursor moved forward
/// by at least one byte and not past the end of `data`.
#[verifier::external_body]
pub(crate) fn decode_cbor_item(data: &[u8]) -> (r: Option<(usize, CborItem)>)
    ensures
        match r {
            Some((n, item)) => cbor_decoded(data@) == Some((n as nat, item@)) && 0 < n
                <= data@.len(),
            None => cbor_decoded(data@) is None,
        },
{
    let mut cursor = std::io::Cursor::new(data);
    match ciborium::de::from_reader::<ciborium::value::Value, _>(&mut cursor) {
        Ok(v) => Some((cursor.position() as usize, to_item(v))),
        Err(_) => None,
    }
}

} // verus!
