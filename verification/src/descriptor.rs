//! The dataset descriptor document.
//!
//! The descriptor is a YAML file naming the image directories and the
//! label-ID/name mapping. The project keeps the document as its original
//! text; reading the fields out of it and rewriting its `names` mapping
//! are the YAML library's work, trusted behind two calls whose results —
//! functions of their arguments alone — carry the uninterpreted names
//! `descriptor_fields_of` and `rewrite_names_of`. The validation and
//! error selection around them is verified.

use vstd::prelude::*;

use crate::errors::LoadError;
use crate::yolo::YoloDataConfig;

verus! {

/// What parsing the descriptor text yields: the parser's message where
/// the text is not a well-formed document, else the `train`, `val` and
/// `test` string entries and the raw `names` entries (ID and name as
/// plain values where they are an integer and a string), each `None`
/// where the document lacks or mistypes it.
pub uninterp spec fn descriptor_fields_of(s: Seq<u8>) -> Result<
    (Option<Seq<u8>>, Option<Seq<u8>>, Option<Seq<u8>>, Option<
        Seq<(Option<u64>, Option<Seq<u8>>)>,
    >),
    Seq<u8>,
>;

/// What rewriting the descriptor with a fresh names mapping yields: the
/// document re-serialized with exactly its `names` mapping and `nc`
/// count replaced and every other field carried through the parsed
/// tree; or a message where the text does not parse, its root is
/// neither a mapping nor plain null, or a name is not valid UTF-8.
pub uninterp spec fn rewrite_names_of(orig: Seq<u8>, names: Seq<(u32, Seq<u8>)>, nc: u64) -> Result<
    Seq<u8>,
    Seq<u8>,
>;

pub open spec fn opt_bytes_view(o: Option<Vec<u8>>) -> Option<Seq<u8>> {
    match o {
        Some(v) => Some(v@),
        None => None,
    }
}

pub open spec fn entries_view(es: Seq<(Option<u64>, Option<Vec<u8>>)>) -> Seq<
    (Option<u64>, Option<Seq<u8>>),
> {
    Seq::new(es.len(), |i: int| (es[i].0, opt_bytes_view(es[i].1)))
}

pub open spec fn names_pairs_view(ns: Seq<(u32, Vec<u8>)>) -> Seq<(u32, Seq<u8>)> {
    Seq::new(ns.len(), |i: int| (ns[i].0, ns[i].1@))
}

#[verifier::external_type_specification]
#[verifier::external_body]
pub struct ExValue(serde_yaml::Value);

/// Relies on serde_yaml::from_str: parses YAML text into its document
/// tree, or reports the parser's message. Errors are returned, never
/// panicked, and recursion inside the parser is depth-capped.
#[verifier::external_body]
fn yaml_parse_doc(bytes: &[u8]) -> Result<serde_yaml::Value, Vec<u8>> {
    let s = match core::str::from_utf8(bytes) {
        Ok(s) => s,
        Err(e) => return Err(format!("{}", e).into_bytes()),
    };
    match serde_yaml::from_str(s) {
        Ok(v) => Ok(v),
        Err(e) => Err(format!("{}", e).into_bytes()),
    }
}

/// Relies on serde_yaml::Value::get and Value::as_str: looks up a
/// top-level string entry of the document; both are non-panicking.
#[verifier::external_body]
fn yaml_read_string(v: &serde_yaml::Value, key: &str) -> Option<Vec<u8>> {
    v.get(key).and_then(|entry| entry.as_str()).map(|t| t.as_bytes().to_vec())
}

/// Relies on serde_yaml::Value::get, Value::as_mapping, Value::as_u64
/// and Value::as_str: reads the `names` mapping entry by entry, handing
/// each key and value over as plain values where they are integers and
/// strings, `None` where they are not; all non-panicking.
#[verifier::external_body]
fn yaml_read_names(v: &serde_yaml::Value) -> Option<Vec<(Option<u64>, Option<Vec<u8>>)>> {
    let mapping = v.get("names")?.as_mapping()?;
    Some(
        mapping.iter().map(
            |(k, val)| (k.as_u64(), val.as_str().map(|t| t.as_bytes().to_vec())),
        ).collect(),
    )
}

/// Relies on serde_yaml's IndexMut on Value: overwrites the document's
/// `names` mapping and `nc` count in place. Index assignment panics on
/// a root that is neither a mapping (possibly behind tags) nor a plain
/// untagged null, so such a root is refused with a message, as is a
/// label name that is not valid UTF-8.
#[verifier::external_body]
fn yaml_apply_names(v: &mut serde_yaml::Value, names: &Vec<(u32, Vec<u8>)>, nc: u64) -> Result<
    (),
    Vec<u8>,
> {
    if v.as_mapping().is_none() && !matches!(v, serde_yaml::Value::Null) {
        return Err(format!("descriptor root is not a mapping").into_bytes());
    }
    let mut mapping = serde_yaml::Mapping::new();
    for (id, name) in names {
        let text = match core::str::from_utf8(name) {
            Ok(t) => t.to_owned(),
            Err(e) => return Err(format!("{}", e).into_bytes()),
        };
        mapping.insert(serde_yaml::Value::Number((*id).into()), serde_yaml::Value::String(text));
    }
    v["names"] = serde_yaml::Value::Mapping(mapping);
    v["nc"] = nc.into();
    Ok(())
}

/// Relies on serde_yaml::to_string: serializes the document tree back
/// to YAML text, or reports the serializer's message.
#[verifier::external_body]
fn yaml_serialize(v: &serde_yaml::Value) -> Result<Vec<u8>, Vec<u8>> {
    match serde_yaml::to_string(v) {
        Ok(t) => Ok(t.into_bytes()),
        Err(e) => Err(format!("{}", e).into_bytes()),
    }
}

/// Parses the descriptor text and reads the train, val and test entries
/// and the names mapping in one step, as plain values, through the
/// serde_yaml calls above. The result depends on the text alone, so it
/// carries the name `descriptor_fields_of`.
#[verifier::external_body]
fn yaml_descriptor_fields(bytes: &[u8]) -> (r: Result<
    (Option<Vec<u8>>, Option<Vec<u8>>, Option<Vec<u8>>, Option<
        Vec<(Option<u64>, Option<Vec<u8>>)>,
    >),
    Vec<u8>,
>)
    ensures
        r is Ok <==> descriptor_fields_of(bytes@) is Ok,
        r is Err ==> r->Err_0@ == descriptor_fields_of(bytes@)->Err_0,
        r is Ok ==> ({
            let g = r->Ok_0;
            let w = descriptor_fields_of(bytes@)->Ok_0;
            &&& opt_bytes_view(g.0) == w.0
            &&& opt_bytes_view(g.1) == w.1
            &&& opt_bytes_view(g.2) == w.2
            &&& (g.3 is Some <==> w.3 is Some)
            &&& (g.3 is Some ==> entries_view(g.3->0@) == w.3->0)
        }),
{
    let doc = match yaml_parse_doc(bytes) {
        Ok(v) => v,
        Err(e) => return Err(e),
    };
    let train = yaml_read_string(&doc, "train");
    let val = yaml_read_string(&doc, "val");
    let test = yaml_read_string(&doc, "test");
    let names = yaml_read_names(&doc);
    Ok((train, val, test, names))
}

/// Parses the stored descriptor text, overwrites its `names` mapping
/// and `nc` count, and re-serializes it, through the serde_yaml calls
/// above; every other field is carried through the parsed tree. The
/// result depends on the arguments alone, so it carries the name
/// `rewrite_names_of`.
#[verifier::external_body]
pub(crate) fn yaml_rewrite_names(orig: &[u8], names: &Vec<(u32, Vec<u8>)>, nc: u64) -> (r: Result<
    Vec<u8>,
    Vec<u8>,
>)
    ensures
        r is Ok <==> rewrite_names_of(orig@, names_pairs_view(names@), nc) is Ok,
        r is Ok ==> r->Ok_0@ == rewrite_names_of(orig@, names_pairs_view(names@), nc)->Ok_0,
        r is Err ==> r->Err_0@ == rewrite_names_of(orig@, names_pairs_view(names@), nc)->Err_0,
{
    let mut doc = match yaml_parse_doc(orig) {
        Ok(v) => v,
        Err(e) => return Err(e),
    };
    match yaml_apply_names(&mut doc, names, nc) {
        Ok(()) => {},
        Err(e) => return Err(e),
    }
    yaml_serialize(&doc)
}

/// Entry validity as the registry requires it: an integer ID that fits
/// a label ID, and a string name.
pub open spec fn names_entries_ok(es: Seq<(Option<u64>, Option<Seq<u8>>)>) -> bool {
    forall|i: int|
        0 <= i < es.len() ==> {
            let e = #[trigger] es[i];
            e.0 is Some && e.0->0 <= u32::MAX && e.1 is Some
        }
}

/// Parse descriptor text into the plain values the project needs.
/// Succeeds exactly when the text parses and holds `train`, `val` and a
/// `names` mapping whose entries are all valid; the error names the
/// first piece found wanting, in that order.
pub fn parse_descriptor(bytes: &[u8]) -> (r: Result<YoloDataConfig, LoadError>)
    ensures
        ({
            let f = descriptor_fields_of(bytes@);
            &&& (r is Ok <==> f is Ok && f->Ok_0.0 is Some && f->Ok_0.1 is Some && f->Ok_0.3
                is Some && names_entries_ok(f->Ok_0.3->0))
            &&& (r is Ok ==> {
                let c = r->Ok_0;
                let w = f->Ok_0;
                &&& c.train@ == w.0->0
                &&& c.val@ == w.1->0
                &&& (c.test is Some <==> w.2 is Some)
                &&& (c.test is Some ==> c.test->0@ == w.2->0)
                &&& c.names@.len() == w.3->0.len()
                &&& (forall|i: int|
                    0 <= i < c.names@.len() ==> (#[trigger] c.names@[i]).0 == w.3->0[i].0->0
                        && c.names@[i].1@ == w.3->0[i].1->0)
            })
            &&& (f is Err ==> r is Err && r->Err_0 is DescriptorUnparsable
                && r->Err_0->DescriptorUnparsable_0@ == f->Err_0)
            &&& (f is Ok && f->Ok_0.0 is None ==> r is Err && r->Err_0 is MissingTrain)
            &&& (f is Ok && f->Ok_0.0 is Some && f->Ok_0.1 is None ==> r is Err && r->Err_0
                is MissingVal)
            &&& (f is Ok && f->Ok_0.0 is Some && f->Ok_0.1 is Some && f->Ok_0.3 is None ==> r
                is Err && r->Err_0 is MissingNames)
            &&& (f is Ok && f->Ok_0.0 is Some && f->Ok_0.1 is Some && f->Ok_0.3 is Some
                && !names_entries_ok(f->Ok_0.3->0) ==> r is Err && r->Err_0 is BadNamesEntry)
        }),
{
    let (train_opt, val_opt, test, names_opt) = match yaml_descriptor_fields(bytes) {
        Ok(fields) => fields,
        Err(msg) => {
            return Err(LoadError::DescriptorUnparsable(msg));
        },
    };
    let train: Vec<u8> = match train_opt {
        Some(t) => t,
        None => {
            return Err(LoadError::MissingTrain);
        },
    };
    let val: Vec<u8> = match val_opt {
        Some(v) => v,
        None => {
            return Err(LoadError::MissingVal);
        },
    };
    let entries: Vec<(Option<u64>, Option<Vec<u8>>)> = match names_opt {
        Some(e) => e,
        None => {
            return Err(LoadError::MissingNames);
        },
    };
    let ghost w_entries = descriptor_fields_of(bytes@)->Ok_0.3->0;
    proof {
        assert(forall|i: int|
            0 <= i < entries@.len() ==> #[trigger] w_entries[i] == (
                entries@[i].0,
                opt_bytes_view(entries@[i].1),
            ));
    }
    let names: Vec<(u32, Vec<u8>)> = match validate_names(entries) {
        Ok(n) => n,
        Err(e) => {
            proof {
                assert(exists|j: int|
                    0 <= j < entries@.len() && !({
                        let x = (#[trigger] entries@[j]);
                        x.0 is Some && x.0->0 <= u32::MAX && x.1 is Some
                    }));
                let j = choose|j: int|
                    0 <= j < entries@.len() && !({
                        let x = (#[trigger] entries@[j]);
                        x.0 is Some && x.0->0 <= u32::MAX && x.1 is Some
                    });
                assert(w_entries[j] == (entries@[j].0, opt_bytes_view(entries@[j].1)));
                assert(!names_entries_ok(w_entries)) by {
                    if names_entries_ok(w_entries) {
                        assert(w_entries[j].0 is Some && w_entries[j].0->0 <= u32::MAX
                            && w_entries[j].1 is Some);
                    }
                }
            }
            return Err(e);
        },
    };
    proof {
        assert(names_entries_ok(w_entries));
    }
    Ok(YoloDataConfig { train, val, test, names })
}

/// Check and convert the raw `names` entries read from the descriptor:
/// every key must be an integer that fits a label ID and every value a
/// string, exactly as the original mapping requires.
pub fn validate_names(entries: Vec<(Option<u64>, Option<Vec<u8>>)>) -> (r: Result<
    Vec<(u32, Vec<u8>)>,
    LoadError,
>)
    ensures
        r is Ok <==> (forall|i: int|
            0 <= i < entries@.len() ==> {
                let e = #[trigger] entries@[i];
                e.0 is Some && e.0->0 <= u32::MAX && e.1 is Some
            }),
        r is Ok ==> r->Ok_0@.len() == entries@.len() && (forall|i: int|
            0 <= i < entries@.len() ==> {
                let e = #[trigger] entries@[i];
                r->Ok_0@[i].0 == e.0->0 && r->Ok_0@[i].1@ == e.1->0@
            }),
        r is Err ==> r->Err_0 is BadNamesEntry,
{
    let mut out: Vec<(u32, Vec<u8>)> = Vec::new();
    let mut i: usize = 0;
    while i < entries.len()
        invariant
            0 <= i <= entries@.len(),
            out@.len() == i,
            forall|j: int|
                0 <= j < i ==> {
                    let e = #[trigger] entries@[j];
                    e.0 is Some && e.0->0 <= u32::MAX && e.1 is Some
                },
            forall|j: int|
                0 <= j < i ==> {
                    let e = #[trigger] entries@[j];
                    out@[j].0 == e.0->0 && out@[j].1@ == e.1->0@
                },
        decreases entries@.len() - i,
    {
        let (id_opt, name_opt) = &entries[i];
        let id: u32 = match id_opt {
            Some(id) => {
                if *id > u32::MAX as u64 {
                    return Err(LoadError::BadNamesEntry);
                }
                *id as u32
            },
            None => {
                return Err(LoadError::BadNamesEntry);
            },
        };
        let name: Vec<u8> = match name_opt {
            Some(n) => n.clone(),
            None => {
                return Err(LoadError::BadNamesEntry);
            },
        };
        out.push((id, name));
        i = i + 1;
    }
    Ok(out)
}

} // verus!
