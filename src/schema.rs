//! The compiled validator tree and its meaning: which instances it accepts,
//! which errors it reports, and which schema documents compile to it.

use vstd::prelude::*;
use crate::error::{records, ErrorRecord, ValidationError};
use crate::multiple_of::{multiple_of_errors, satisfies_multiple_of, MultipleOfValidator};
use crate::value::{JsonValue, PathSegment};

verus! {

/// One compiled entry of a schema object, in the object's order.
pub enum Keyword {
    /// `multipleOf`: a number must be a multiple of the divisor.
    MultipleOf(MultipleOfValidator),
    /// `items`: every element of an array must satisfy the sub-schema.
    Items(Box<Schema>),
    /// `allOf`: the instance must satisfy every sub-schema, in order.
    AllOf(Vec<Schema>),
    /// `properties`: in an object, the value of each entry whose key is named
    /// here must satisfy that name's sub-schema.
    Properties(Vec<(String, Schema)>),
    /// An entry whose key this engine does not recognise; it constrains nothing.
    Ignored,
}

/// A compiled schema: a constant-result boolean schema, or the logical AND of
/// the keywords of a schema object.
pub enum Schema {
    Bool(bool),
    Keywords(Vec<Keyword>),
}

/// The key of the divisibility keyword.
pub open spec fn multiple_of_key() -> Seq<char> {
    "multipleOf"@
}

/// The key of the per-item sub-schema keyword.
pub open spec fn items_key() -> Seq<char> {
    "items"@
}

/// The key of the conjunction keyword.
pub open spec fn all_of_key() -> Seq<char> {
    "allOf"@
}

/// The key of the per-property sub-schema keyword.
pub open spec fn properties_key() -> Seq<char> {
    "properties"@
}

// ---- well-formedness ----

pub open spec fn schema_wf(s: Schema) -> bool
    decreases s, 0nat,
{
    match s {
        Schema::Bool(_) => true,
        Schema::Keywords(kws) => keywords_wf(kws@, kws@.len()),
    }
}

pub open spec fn keywords_wf(kws: Seq<Keyword>, n: nat) -> bool
    decreases kws, n,
{
    if n == 0 || n > kws.len() {
        true
    } else {
        keywords_wf(kws, (n - 1) as nat) && match kws[n - 1] {
            Keyword::MultipleOf(v) => v.wf(),
            Keyword::Items(sub) => schema_wf(*sub),
            Keyword::AllOf(subs) => schemas_wf(subs@, subs@.len()),
            Keyword::Properties(props) => props_wf(props@, props@.len()),
            Keyword::Ignored => true,
        }
    }
}

pub open spec fn props_wf(props: Seq<(String, Schema)>, n: nat) -> bool
    decreases props, n,
{
    if n == 0 || n > props.len() {
        true
    } else {
        props_wf(props, (n - 1) as nat) && schema_wf(props[n - 1].1)
    }
}

pub open spec fn schemas_wf(subs: Seq<Schema>, n: nat) -> bool
    decreases subs, n,
{
    if n == 0 || n > subs.len() {
        true
    } else {
        schemas_wf(subs, (n - 1) as nat) && schema_wf(subs[n - 1])
    }
}

// ---- fast mode ----

/// `instance` satisfies the compiled schema `s`.
pub open spec fn schema_accepts(s: Schema, instance: JsonValue) -> bool
    decreases s, 0nat,
{
    match s {
        Schema::Bool(b) => b,
        Schema::Keywords(kws) => keywords_accept(kws@, instance, kws@.len()),
    }
}

/// `instance` satisfies each of the first `n` keywords.
pub open spec fn keywords_accept(kws: Seq<Keyword>, instance: JsonValue, n: nat) -> bool
    decreases kws, n,
{
    if n == 0 || n > kws.len() {
        true
    } else {
        keywords_accept(kws, instance, (n - 1) as nat) && match kws[n - 1] {
            Keyword::MultipleOf(v) => satisfies_multiple_of(instance, v.divisor()),
            Keyword::Items(sub) => match instance {
                JsonValue::Array(elems) => items_accept(*sub, elems@, elems@.len()),
                _ => true,
            },
            Keyword::AllOf(subs) => all_accept(subs@, instance, subs@.len()),
            Keyword::Properties(props) => match instance {
                JsonValue::Object(entries) => props_accept(props@, entries@, props@.len()),
                _ => true,
            },
            Keyword::Ignored => true,
        }
    }
}

/// For each of the first `n` named sub-schemas, every entry with that key
/// satisfies it.
pub open spec fn props_accept(
    props: Seq<(String, Schema)>,
    entries: Seq<(String, JsonValue)>,
    n: nat,
) -> bool
    decreases props, n,
{
    if n == 0 || n > props.len() {
        true
    } else {
        props_accept(props, entries, (n - 1) as nat) && named_accept(
            props[n - 1].1,
            props[n - 1].0@,
            entries,
            entries.len(),
        )
    }
}

/// Each of the first `m` entries whose key is `name` satisfies `s`.
pub open spec fn named_accept(
    s: Schema,
    name: Seq<char>,
    entries: Seq<(String, JsonValue)>,
    m: nat,
) -> bool
    decreases s, m,
{
    if m == 0 || m > entries.len() {
        true
    } else {
        named_accept(s, name, entries, (m - 1) as nat) && (entries[m - 1].0@ == name
            ==> schema_accepts(s, entries[m - 1].1))
    }
}

/// `instance` satisfies each of the first `n` sub-schemas.
pub open spec fn all_accept(subs: Seq<Schema>, instance: JsonValue, n: nat) -> bool
    decreases subs, n,
{
    if n == 0 || n > subs.len() {
        true
    } else {
        all_accept(subs, instance, (n - 1) as nat) && schema_accepts(subs[n - 1], instance)
    }
}

/// Each of the first `n` elements satisfies `s`.
pub open spec fn items_accept(s: Schema, elems: Seq<JsonValue>, n: nat) -> bool
    decreases s, n,
{
    if n == 0 || n > elems.len() {
        true
    } else {
        items_accept(s, elems, (n - 1) as nat) && schema_accepts(s, elems[n - 1])
    }
}

// ---- diagnostic mode ----

/// Every violation of `s` by `instance` at `path`, in schema declaration order
/// and, within `items`, in element order.
pub open spec fn schema_errors(s: Schema, instance: JsonValue, path: Seq<PathSegment>) -> Seq<
    ErrorRecord,
>
    decreases s, 0nat,
{
    match s {
        Schema::Bool(b) => if b {
            Seq::empty()
        } else {
            seq![ErrorRecord { path, kind: crate::error::ErrorKind::FalseSchema }]
        },
        Schema::Keywords(kws) => keywords_errors(kws@, instance, path, kws@.len()),
    }
}

/// The violations of the first `n` keywords, in order.
pub open spec fn keywords_errors(
    kws: Seq<Keyword>,
    instance: JsonValue,
    path: Seq<PathSegment>,
    n: nat,
) -> Seq<ErrorRecord>
    decreases kws, n,
{
    if n == 0 || n > kws.len() {
        Seq::empty()
    } else {
        keywords_errors(kws, instance, path, (n - 1) as nat) + match kws[n - 1] {
            Keyword::MultipleOf(v) => multiple_of_errors(instance, v.divisor(), path),
            Keyword::Items(sub) => match instance {
                JsonValue::Array(elems) => items_errors(*sub, elems@, path, elems@.len()),
                _ => Seq::empty(),
            },
            Keyword::AllOf(subs) => all_errors(subs@, instance, path, subs@.len()),
            Keyword::Properties(props) => match instance {
                JsonValue::Object(entries) => props_errors(props@, entries@, path, props@.len()),
                _ => Seq::empty(),
            },
            Keyword::Ignored => Seq::empty(),
        }
    }
}

/// The violations of the first `n` named sub-schemas, in the order of the
/// names and then of the entries.
pub open spec fn props_errors(
    props: Seq<(String, Schema)>,
    entries: Seq<(String, JsonValue)>,
    path: Seq<PathSegment>,
    n: nat,
) -> Seq<ErrorRecord>
    decreases props, n,
{
    if n == 0 || n > props.len() {
        Seq::empty()
    } else {
        props_errors(props, entries, path, (n - 1) as nat) + named_errors(
            props[n - 1].1,
            props[n - 1].0@,
            entries,
            path,
            entries.len(),
        )
    }
}

/// The violations of `s` by the first `m` entries whose key is `name`, each
/// located at its key.
pub open spec fn named_errors(
    s: Schema,
    name: Seq<char>,
    entries: Seq<(String, JsonValue)>,
    path: Seq<PathSegment>,
    m: nat,
) -> Seq<ErrorRecord>
    decreases s, m,
{
    if m == 0 || m > entries.len() {
        Seq::empty()
    } else {
        named_errors(s, name, entries, path, (m - 1) as nat) + if entries[m - 1].0@ == name {
            schema_errors(s, entries[m - 1].1, path.push(PathSegment::Key(entries[m - 1].0)))
        } else {
            Seq::empty()
        }
    }
}

/// The violations of the first `n` sub-schemas, in order, all at `path`.
pub open spec fn all_errors(
    subs: Seq<Schema>,
    instance: JsonValue,
    path: Seq<PathSegment>,
    n: nat,
) -> Seq<ErrorRecord>
    decreases subs, n,
{
    if n == 0 || n > subs.len() {
        Seq::empty()
    } else {
        all_errors(subs, instance, path, (n - 1) as nat) + schema_errors(subs[n - 1], instance, path)
    }
}

/// The violations of `s` by the first `n` elements, each located at its index.
pub open spec fn items_errors(s: Schema, elems: Seq<JsonValue>, path: Seq<PathSegment>, n: nat) -> Seq<
    ErrorRecord,
>
    decreases s, n,
{
    if n == 0 || n > elems.len() {
        Seq::empty()
    } else {
        items_errors(s, elems, path, (n - 1) as nat) + schema_errors(
            s,
            elems[n - 1],
            path.push(PathSegment::Index((n - 1) as usize)),
        )
    }
}

// ---- compilation ----

/// The schema document `j` compiles: it is a boolean, or an object whose
/// `multipleOf` entries hold numbers and whose `items` entries compile.
pub open spec fn json_compiles(j: JsonValue) -> bool
    decreases j, 0nat,
{
    match j {
        JsonValue::Bool(_) => true,
        JsonValue::Object(pairs) => entries_compile(pairs@, pairs@.len()),
        _ => false,
    }
}

/// The first `n` entries of a schema object compile.
pub open spec fn entries_compile(pairs: Seq<(String, JsonValue)>, n: nat) -> bool
    decreases pairs, n,
{
    if n == 0 || n > pairs.len() {
        true
    } else {
        entries_compile(pairs, (n - 1) as nat) && (if pairs[n - 1].0@ == multiple_of_key() {
            pairs[n - 1].1 is Number
        } else if pairs[n - 1].0@ == items_key() {
            json_compiles(pairs[n - 1].1)
        } else if pairs[n - 1].0@ == all_of_key() {
            match pairs[n - 1].1 {
                JsonValue::Array(elems) => elements_compile(elems@, elems@.len()),
                _ => false,
            }
        } else if pairs[n - 1].0@ == properties_key() {
            match pairs[n - 1].1 {
                JsonValue::Object(ps) => entries_compile_all(ps@, ps@.len()),
                _ => false,
            }
        } else {
            true
        })
    }
}

/// The values of the first `n` entries of an object of schemas compile.
pub open spec fn entries_compile_all(ps: Seq<(String, JsonValue)>, n: nat) -> bool
    decreases ps, n,
{
    if n == 0 || n > ps.len() {
        true
    } else {
        entries_compile_all(ps, (n - 1) as nat) && json_compiles(ps[n - 1].1)
    }
}

/// The first `n` documents of an array of schemas compile.
pub open spec fn elements_compile(elems: Seq<JsonValue>, n: nat) -> bool
    decreases elems, n,
{
    if n == 0 || n > elems.len() {
        true
    } else {
        elements_compile(elems, (n - 1) as nat) && json_compiles(elems[n - 1])
    }
}

/// `s` is the compiled form of the schema document `j`: a boolean document
/// gives that boolean schema, and an object gives one keyword per entry, in
/// the object's order.
pub open spec fn schema_models(s: Schema, j: JsonValue) -> bool
    decreases j, 0nat,
{
    match j {
        JsonValue::Bool(b) => s == Schema::Bool(b),
        JsonValue::Object(pairs) => match s {
            Schema::Keywords(kws) => kws@.len() == pairs@.len() && entries_model(
                kws@,
                pairs@,
                pairs@.len(),
            ),
            _ => false,
        },
        _ => false,
    }
}

/// Each of the first `n` keywords is the compiled form of the entry at its
/// position.
pub open spec fn entries_model(kws: Seq<Keyword>, pairs: Seq<(String, JsonValue)>, n: nat) -> bool
    decreases pairs, n,
{
    if n == 0 || n > pairs.len() || n > kws.len() {
        true
    } else {
        entries_model(kws, pairs, (n - 1) as nat) && (if pairs[n - 1].0@ == multiple_of_key() {
            match (kws[n - 1], pairs[n - 1].1) {
                (Keyword::MultipleOf(v), JsonValue::Number(d)) => v.divisor() == d && (v is Integer
                    <==> d.is_integral()),
                _ => false,
            }
        } else if pairs[n - 1].0@ == items_key() {
            match kws[n - 1] {
                Keyword::Items(sub) => schema_models(*sub, pairs[n - 1].1),
                _ => false,
            }
        } else if pairs[n - 1].0@ == all_of_key() {
            match (kws[n - 1], pairs[n - 1].1) {
                (Keyword::AllOf(subs), JsonValue::Array(elems)) => subs@.len() == elems@.len()
                    && elements_model(subs@, elems@, elems@.len()),
                _ => false,
            }
        } else if pairs[n - 1].0@ == properties_key() {
            match (kws[n - 1], pairs[n - 1].1) {
                (Keyword::Properties(props), JsonValue::Object(ps)) => props@.len() == ps@.len()
                    && props_model(props@, ps@, ps@.len()),
                _ => false,
            }
        } else {
            kws[n - 1] is Ignored
        })
    }
}

/// Each of the first `n` schemas is the compiled form of the document at its
/// position.
pub open spec fn elements_model(subs: Seq<Schema>, elems: Seq<JsonValue>, n: nat) -> bool
    decreases elems, n,
{
    if n == 0 || n > elems.len() || n > subs.len() {
        true
    } else {
        elements_model(subs, elems, (n - 1) as nat) && schema_models(subs[n - 1], elems[n - 1])
    }
}

/// Each of the first `n` named schemas has the name of the entry at its
/// position and is the compiled form of that entry's value.
pub open spec fn props_model(props: Seq<(String, Schema)>, ps: Seq<(String, JsonValue)>, n: nat) -> bool
    decreases ps, n,
{
    if n == 0 || n > ps.len() || n > props.len() {
        true
    } else {
        props_model(props, ps, (n - 1) as nat) && props[n - 1].0@ == ps[n - 1].0@ && schema_models(
            props[n - 1].1,
            ps[n - 1].1,
        )
    }
}

// ---- laws ----

/// Fast and diagnostic mode agree: an instance satisfies a compiled schema
/// exactly when diagnostic validation, at any path, reports no error.
pub proof fn lemma_accepts_iff_no_errors(s: Schema, instance: JsonValue, path: Seq<PathSegment>)
    ensures
        schema_accepts(s, instance) <==> schema_errors(s, instance, path).len() == 0,
    decreases s, 0nat,
{
    match s {
        Schema::Bool(_) => {},
        Schema::Keywords(kws) => {
            lemma_keywords_accept_iff_no_errors(kws@, instance, path, kws@.len());
        },
    }
}

/// Fast and diagnostic mode agree on the first `n` keywords of a node.
pub proof fn lemma_keywords_accept_iff_no_errors(
    kws: Seq<Keyword>,
    instance: JsonValue,
    path: Seq<PathSegment>,
    n: nat,
)
    ensures
        keywords_accept(kws, instance, n) <==> keywords_errors(kws, instance, path, n).len() == 0,
    decreases kws, n,
{
    if n == 0 || n > kws.len() {
    } else {
        lemma_keywords_accept_iff_no_errors(kws, instance, path, (n - 1) as nat);
        match kws[n - 1] {
            Keyword::MultipleOf(v) => {},
            Keyword::Items(sub) => match instance {
                JsonValue::Array(elems) => {
                    lemma_items_accept_iff_no_errors(*sub, elems@, path, elems@.len());
                },
                _ => {},
            },
            Keyword::AllOf(subs) => {
                lemma_all_accept_iff_no_errors(subs@, instance, path, subs@.len());
            },
            Keyword::Properties(props) => match instance {
                JsonValue::Object(entries) => {
                    lemma_props_accept_iff_no_errors(props@, entries@, path, props@.len());
                },
                _ => {},
            },
            Keyword::Ignored => {},
        }
    }
}

/// Fast and diagnostic mode agree on the first `n` elements of an array.
pub proof fn lemma_items_accept_iff_no_errors(
    s: Schema,
    elems: Seq<JsonValue>,
    path: Seq<PathSegment>,
    n: nat,
)
    ensures
        items_accept(s, elems, n) <==> items_errors(s, elems, path, n).len() == 0,
    decreases s, n,
{
    if n == 0 || n > elems.len() {
    } else {
        lemma_items_accept_iff_no_errors(s, elems, path, (n - 1) as nat);
        lemma_accepts_iff_no_errors(
            s,
            elems[n - 1],
            path.push(PathSegment::Index((n - 1) as usize)),
        );
    }
}

/// Fast and diagnostic mode agree on the first `n` named sub-schemas of a
/// `properties` keyword.
pub proof fn lemma_props_accept_iff_no_errors(
    props: Seq<(String, Schema)>,
    entries: Seq<(String, JsonValue)>,
    path: Seq<PathSegment>,
    n: nat,
)
    ensures
        props_accept(props, entries, n) <==> props_errors(props, entries, path, n).len() == 0,
    decreases props, n,
{
    if n == 0 || n > props.len() {
    } else {
        lemma_props_accept_iff_no_errors(props, entries, path, (n - 1) as nat);
        lemma_named_accept_iff_no_errors(
            props[n - 1].1,
            props[n - 1].0@,
            entries,
            path,
            entries.len(),
        );
    }
}

/// Fast and diagnostic mode agree on the first `m` entries checked against
/// one named sub-schema.
pub proof fn lemma_named_accept_iff_no_errors(
    s: Schema,
    name: Seq<char>,
    entries: Seq<(String, JsonValue)>,
    path: Seq<PathSegment>,
    m: nat,
)
    ensures
        named_accept(s, name, entries, m) <==> named_errors(s, name, entries, path, m).len() == 0,
    decreases s, m,
{
    if m == 0 || m > entries.len() {
    } else {
        lemma_named_accept_iff_no_errors(s, name, entries, path, (m - 1) as nat);
        lemma_accepts_iff_no_errors(
            s,
            entries[m - 1].1,
            path.push(PathSegment::Key(entries[m - 1].0)),
        );
    }
}

/// Fast and diagnostic mode agree on the first `n` sub-schemas of a
/// conjunction.
pub proof fn lemma_all_accept_iff_no_errors(
    subs: Seq<Schema>,
    instance: JsonValue,
    path: Seq<PathSegment>,
    n: nat,
)
    ensures
        all_accept(subs, instance, n) <==> all_errors(subs, instance, path, n).len() == 0,
    decreases subs, n,
{
    if n == 0 || n > subs.len() {
    } else {
        lemma_all_accept_iff_no_errors(subs, instance, path, (n - 1) as nat);
        lemma_accepts_iff_no_errors(subs[n - 1], instance, path);
    }
}

/// Diagnostic validation is deterministic: two runs of the same schema on the
/// same instance at the same path report the same errors.
pub proof fn lemma_validate_repeatable(
    s: Schema,
    instance: JsonValue,
    path: Seq<PathSegment>,
    first: Seq<ValidationError>,
    second: Seq<ValidationError>,
)
    requires
        records(first) == schema_errors(s, instance, path),
        records(second) == schema_errors(s, instance, path),
    ensures
        records(first) == records(second),
{
}

} // verus!
