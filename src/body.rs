use vstd::prelude::*;
use crate::types::{Element, ElementModel, FormatKind, Header, HeaderModel, PropertyKind, PropertyModel, elements_view, properties_view};
use crate::value::{DecodeError, Value, ValueModel, decode_scalar, spec_scalar};

verus! {

/// What one property of one record holds.
#[derive(Clone, Debug, PartialEq)]
pub enum PropertyValue {
    Scalar(Value),
    List(Vec<Value>),
}

pub ghost enum PropertyValueModel {
    Scalar(ValueModel),
    List(Seq<ValueModel>),
}

pub open spec fn values_view(vs: Seq<Value>) -> Seq<ValueModel> {
    vs.map_values(|v: Value| v@)
}

impl View for PropertyValue {
    type V = PropertyValueModel;

    open spec fn view(&self) -> PropertyValueModel {
        match self {
            PropertyValue::Scalar(v) => PropertyValueModel::Scalar(v@),
            PropertyValue::List(vs) => PropertyValueModel::List(values_view(vs@)),
        }
    }
}

/// One record: a value or a list for each property, in declared order.
pub type Record = Vec<PropertyValue>;

pub open spec fn record_view(r: Seq<PropertyValue>) -> Seq<PropertyValueModel> {
    r.map_values(|v: PropertyValue| v@)
}

pub open spec fn records_view(rs: Seq<Record>) -> Seq<Seq<PropertyValueModel>> {
    rs.map_values(|r: Record| record_view(r@))
}

pub open spec fn body_view(b: Seq<Vec<Record>>) -> Seq<Seq<Seq<PropertyValueModel>>> {
    b.map_values(|rs: Vec<Record>| records_view(rs@))
}

/// The count of a list: a non-negative integer value.
pub open spec fn count_of(v: ValueModel) -> Option<u64> {
    match v {
        ValueModel::Int8(x) => if x >= 0 { Some(x as u64) } else { None },
        ValueModel::UInt8(x) => Some(x as u64),
        ValueModel::Int16(x) => if x >= 0 { Some(x as u64) } else { None },
        ValueModel::UInt16(x) => Some(x as u64),
        ValueModel::Int32(x) => if x >= 0 { Some(x as u64) } else { None },
        ValueModel::UInt32(x) => Some(x as u64),
        ValueModel::Int64(x) => if x >= 0 { Some(x as u64) } else { None },
        ValueModel::UInt64(x) => Some(x),
        ValueModel::Float32(_) | ValueModel::Float64(_) => None,
    }
}

/// `n` more values of kind `k` from `p`, after those in `acc`.
pub open spec fn spec_items(s: Seq<u8>, p: int, f: FormatKind, k: crate::types::ValueKind, n: nat, acc: Seq<ValueModel>) -> Result<(Seq<ValueModel>, int), DecodeError>
    decreases n,
{
    if n == 0 {
        Ok((acc, p))
    } else {
        match spec_scalar(s, p, f, k) {
            Err(e) => Err(e),
            Ok((v, q)) => spec_items(s, q, f, k, (n - 1) as nat, acc.push(v)),
        }
    }
}

/// A scalar property is one value; a list property a count, then that many values.
pub open spec fn spec_property_value(s: Seq<u8>, p: int, f: FormatKind, kind: PropertyKind) -> Result<(PropertyValueModel, int), DecodeError> {
    match kind {
        PropertyKind::Scalar(k) => match spec_scalar(s, p, f, k) {
            Err(e) => Err(e),
            Ok((v, q)) => Ok((PropertyValueModel::Scalar(v), q)),
        },
        PropertyKind::List(c, k) => match spec_scalar(s, p, f, c) {
            Err(e) => Err(e),
            Ok((cv, q)) => match count_of(cv) {
                None => Err(DecodeError::InvalidListCount { offset: p as usize }),
                Some(n) => match spec_items(s, q, f, k, n as nat, Seq::empty()) {
                    Err(e) => Err(e),
                    Ok((vs, q2)) => Ok((PropertyValueModel::List(vs), q2)),
                },
            },
        },
    }
}

/// The properties from the `i`-th on of one record, after the values in `acc`.
pub open spec fn spec_record(s: Seq<u8>, p: int, f: FormatKind, props: Seq<PropertyModel>, i: int, acc: Seq<PropertyValueModel>) -> Result<(Seq<PropertyValueModel>, int), DecodeError>
    decreases props.len() - i,
{
    if i >= props.len() {
        Ok((acc, p))
    } else {
        match spec_property_value(s, p, f, props[i].kind) {
            Err(e) => Err(e),
            Ok((v, q)) => spec_record(s, q, f, props, i + 1, acc.push(v)),
        }
    }
}

/// `n` more records of an element, after those in `acc`.
pub open spec fn spec_records(s: Seq<u8>, p: int, f: FormatKind, props: Seq<PropertyModel>, n: nat, acc: Seq<Seq<PropertyValueModel>>) -> Result<(Seq<Seq<PropertyValueModel>>, int), DecodeError>
    decreases n,
{
    if n == 0 {
        Ok((acc, p))
    } else {
        match spec_record(s, p, f, props, 0, Seq::empty()) {
            Err(e) => Err(e),
            Ok((r, q)) => spec_records(s, q, f, props, (n - 1) as nat, acc.push(r)),
        }
    }
}

/// The records of the elements from the `i`-th on, in order, after those in `acc`.
pub open spec fn spec_elements_body(s: Seq<u8>, p: int, f: FormatKind, els: Seq<ElementModel>, i: int, acc: Seq<Seq<Seq<PropertyValueModel>>>) -> Result<(Seq<Seq<Seq<PropertyValueModel>>>, int), DecodeError>
    decreases els.len() - i,
{
    if i >= els.len() {
        Ok((acc, p))
    } else {
        match spec_records(s, p, f, els[i].properties, els[i].count as nat, Seq::empty()) {
            Err(e) => Err(e),
            Ok((rs, q)) => spec_elements_body(s, q, f, els, i + 1, acc.push(rs)),
        }
    }
}

/// The body that header `h` describes, decoded from the start of `s`: for each element
/// its records, for each record a value or list per property; and the offset where the
/// decoding stopped.
pub open spec fn spec_body(s: Seq<u8>, h: HeaderModel) -> Result<(Seq<Seq<Seq<PropertyValueModel>>>, int), DecodeError> {
    spec_elements_body(s, 0, h.format.kind, h.elements, 0, Seq::empty())
}

fn count_exec(v: &Value) -> (r: Option<u64>)
    ensures
        r == count_of(v@),
{
    match v {
        Value::Int8(x) => if *x >= 0 { Some(*x as u64) } else { None },
        Value::UInt8(x) => Some(*x as u64),
        Value::Int16(x) => if *x >= 0 { Some(*x as u64) } else { None },
        Value::UInt16(x) => Some(*x as u64),
        Value::Int32(x) => if *x >= 0 { Some(*x as u64) } else { None },
        Value::UInt32(x) => Some(*x as u64),
        Value::Int64(x) => if *x >= 0 { Some(*x as u64) } else { None },
        Value::UInt64(x) => Some(*x),
        Value::Float32(_) | Value::Float64(_) => None,
    }
}

/// Decodes the value or list of one property of kind `kind` at `p`.
#[verifier::loop_isolation(false)]
pub fn decode_property(s: &[u8], p: usize, f: FormatKind, kind: PropertyKind) -> (r: Result<(PropertyValue, usize), DecodeError>)
    requires
        p <= s@.len(),
    ensures
        match r {
            Ok((v, q)) => spec_property_value(s@, p as int, f, kind) == Ok::<(PropertyValueModel, int), DecodeError>((v@, q as int))
                && p <= q <= s@.len(),
            Err(e) => spec_property_value(s@, p as int, f, kind) == Err::<(PropertyValueModel, int), DecodeError>(e),
        },
{
    match kind {
        PropertyKind::Scalar(k) => match decode_scalar(s, p, f, k) {
            Err(e) => Err(e),
            Ok((v, q)) => Ok((PropertyValue::Scalar(v), q)),
        },
        PropertyKind::List(c, k) => {
            let (cv, q0) = match decode_scalar(s, p, f, c) {
                Err(e) => return Err(e),
                Ok(x) => x,
            };
            let n = match count_exec(&cv) {
                None => return Err(DecodeError::InvalidListCount { offset: p }),
                Some(n) => n,
            };
            let mut items: Vec<Value> = Vec::new();
            let mut q = q0;
            proof {
                assert(values_view(items@) =~= Seq::<ValueModel>::empty());
            }
            let mut j: u64 = 0;
            while j < n
                invariant
                    j <= n,
                    q0 <= q <= s@.len(),
                    spec_items(s@, q as int, f, k, (n - j) as nat, values_view(items@))
                        == spec_items(s@, q0 as int, f, k, n as nat, Seq::empty()),
                decreases n - j,
            {
                let ghost before = values_view(items@);
                match decode_scalar(s, q, f, k) {
                    Err(e) => return Err(e),
                    Ok((v, q2)) => {
                        let ghost vv = v@;
                        items.push(v);
                        proof {
                            assert(values_view(items@) =~= before.push(vv));
                        }
                        q = q2;
                    },
                }
                j = j + 1;
            }
            Ok((PropertyValue::List(items), q))
        },
    }
}

/// Decodes one record of an element whose properties are `props`, at `p`.
pub fn decode_record(s: &[u8], p: usize, f: FormatKind, props: &Vec<crate::types::Property>) -> (r: Result<(Record, usize), DecodeError>)
    requires
        p <= s@.len(),
    ensures
        match r {
            Ok((v, q)) => spec_record(s@, p as int, f, properties_view(props@), 0, Seq::empty())
                == Ok::<(Seq<PropertyValueModel>, int), DecodeError>((record_view(v@), q as int)) && p <= q <= s@.len(),
            Err(e) => spec_record(s@, p as int, f, properties_view(props@), 0, Seq::empty())
                == Err::<(Seq<PropertyValueModel>, int), DecodeError>(e),
        },
{
    let ghost ps = properties_view(props@);
    let mut rec: Record = Vec::new();
    let mut q = p;
    let mut i: usize = 0;
    proof {
        assert(record_view(rec@) =~= Seq::<PropertyValueModel>::empty());
    }
    while i < props.len()
        invariant
            i <= props@.len(),
            ps == properties_view(props@),
            p <= q <= s@.len(),
            spec_record(s@, q as int, f, ps, i as int, record_view(rec@))
                == spec_record(s@, p as int, f, ps, 0, Seq::empty()),
        decreases props@.len() - i,
    {
        let ghost before = record_view(rec@);
        assert(ps[i as int].kind == props@[i as int].kind);
        match decode_property(s, q, f, props[i].kind) {
            Err(e) => return Err(e),
            Ok((v, q2)) => {
                let ghost vv = v@;
                rec.push(v);
                proof {
                    assert(record_view(rec@) =~= before.push(vv));
                }
                q = q2;
            },
        }
        i = i + 1;
    }
    Ok((rec, q))
}

/// Decodes the `count` records of one element at `p`.
pub fn decode_element(s: &[u8], p: usize, f: FormatKind, el: &Element) -> (r: Result<(Vec<Record>, usize), DecodeError>)
    requires
        p <= s@.len(),
    ensures
        match r {
            Ok((v, q)) => spec_records(s@, p as int, f, el@.properties, el.count as nat, Seq::empty())
                == Ok::<(Seq<Seq<PropertyValueModel>>, int), DecodeError>((records_view(v@), q as int)) && p <= q <= s@.len(),
            Err(e) => spec_records(s@, p as int, f, el@.properties, el.count as nat, Seq::empty())
                == Err::<(Seq<Seq<PropertyValueModel>>, int), DecodeError>(e),
        },
{
    let mut recs: Vec<Record> = Vec::new();
    let mut q = p;
    let mut j: u64 = 0;
    proof {
        assert(records_view(recs@) =~= Seq::<Seq<PropertyValueModel>>::empty());
    }
    while j < el.count
        invariant
            j <= el.count,
            p <= q <= s@.len(),
            spec_records(s@, q as int, f, el@.properties, (el.count - j) as nat, records_view(recs@))
                == spec_records(s@, p as int, f, el@.properties, el.count as nat, Seq::empty()),
        decreases el.count - j,
    {
        let ghost before = records_view(recs@);
        match decode_record(s, q, f, &el.properties) {
            Err(e) => return Err(e),
            Ok((rec, q2)) => {
                let ghost rv = record_view(rec@);
                recs.push(rec);
                proof {
                    assert(records_view(recs@) =~= before.push(rv));
                }
                q = q2;
            },
        }
        j = j + 1;
    }
    Ok((recs, q))
}

/// Decodes the body `s` that `header` describes: for each element in order, its
/// `count` records. On success returns them with the number of bytes consumed.
pub fn decode_body(s: &[u8], header: &Header) -> (r: Result<(Vec<Vec<Record>>, usize), DecodeError>)
    ensures
        match r {
            Ok((v, q)) => spec_body(s@, header@) == Ok::<(Seq<Seq<Seq<PropertyValueModel>>>, int), DecodeError>((body_view(v@), q as int))
                && q <= s@.len(),
            Err(e) => spec_body(s@, header@) == Err::<(Seq<Seq<Seq<PropertyValueModel>>>, int), DecodeError>(e),
        },
{
    let f = header.format.kind;
    let ghost els = header@.elements;
    let mut out: Vec<Vec<Record>> = Vec::new();
    let mut q: usize = 0;
    let mut i: usize = 0;
    proof {
        assert(body_view(out@) =~= Seq::<Seq<Seq<PropertyValueModel>>>::empty());
    }
    while i < header.elements.len()
        invariant
            i <= header.elements@.len(),
            els == elements_view(header.elements@),
            f == header.format.kind,
            q <= s@.len(),
            spec_elements_body(s@, q as int, f, els, i as int, body_view(out@))
                == spec_elements_body(s@, 0, f, els, 0, Seq::empty()),
        decreases header.elements@.len() - i,
    {
        let ghost before = body_view(out@);
        assert(els[i as int] == header.elements@[i as int]@);
        match decode_element(s, q, f, &header.elements[i]) {
            Err(e) => return Err(e),
            Ok((recs, q2)) => {
                let ghost rv = records_view(recs@);
                out.push(recs);
                proof {
                    assert(body_view(out@) =~= before.push(rv));
                }
                q = q2;
            },
        }
        i = i + 1;
    }
    Ok((out, q))
}

} // verus!
