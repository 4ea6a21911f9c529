//! Compiling schema documents into validator trees.

use vstd::prelude::*;
use vstd::string::StringExecFns;
use crate::error::CompilationError;
use crate::multiple_of;
use crate::schema::{
    all_of_key, elements_compile, elements_model, entries_compile, entries_compile_all,
    entries_model, items_key, json_compiles, keywords_wf, multiple_of_key, properties_key,
    props_model, props_wf, schema_models, schema_wf, schemas_wf, Keyword, Schema,
};
use crate::value::JsonValue;

verus! {

impl Schema {
    /// Compiles a schema document. A boolean gives the constant schema; an
    /// object gives the AND of its entries in order, `multipleOf`, `items`,
    /// `allOf` and `properties` compiled and other keys ignored. Any other
    /// document, a `multipleOf` value that is not a number, an `items` value
    /// that does not compile, an `allOf` value that is not an array of schemas
    /// that compile, or a `properties` value that is not an object of schemas
    /// that compile, is a schema error.
    pub fn compile(schema: &JsonValue) -> (r: Result<Schema, CompilationError>)
        ensures
            r is Ok <==> json_compiles(*schema),
            r matches Ok(s) ==> schema_models(s, *schema) && schema_wf(s),
            r matches Err(e) ==> e == CompilationError::SchemaError,
        decreases *schema,
    {
        match schema {
            JsonValue::Bool(b) => Ok(Schema::Bool(*b)),
            JsonValue::Object(pairs) => {
                let mk = String::from_str("multipleOf");
                let ik = String::from_str("items");
                let ak = String::from_str("allOf");
                let pk = String::from_str("properties");
                let mut kws: Vec<Keyword> = Vec::new();
                let mut i: usize = 0;
                while i < pairs.len()
                    invariant
                        i <= pairs@.len(),
                        kws@.len() == i,
                        mk@ == multiple_of_key(),
                        ik@ == items_key(),
                        ak@ == all_of_key(),
                        pk@ == properties_key(),
                        *schema == JsonValue::Object(*pairs),
                        entries_compile(pairs@, i as nat),
                        entries_model(kws@, pairs@, i as nat),
                        keywords_wf(kws@, i as nat),
                    decreases pairs@.len() - i,
                {
                    let (key, value) = &pairs[i];
                    let kw = if *key == mk {
                        match multiple_of::compile(value) {
                            Ok(v) => Keyword::MultipleOf(v),
                            Err(e) => {
                                proof {
                                    if entries_compile(pairs@, pairs@.len()) {
                                        lemma_entries_compile_prefix(
                                            pairs@,
                                            (i + 1) as nat,
                                            pairs@.len(),
                                        );
                                    }
                                }
                                return Err(e);
                            },
                        }
                    } else if *key == ik {
                        proof {
                            assert(*pairs == schema->Object_0);
                            assert(decreases_to!(*schema => schema->Object_0));
                            assert(decreases_to!(*pairs => pairs[i as int]));
                            assert(decreases_to!(pairs[i as int] => pairs[i as int].1));
                        }
                        match Schema::compile(value) {
                            Ok(sub) => Keyword::Items(Box::new(sub)),
                            Err(e) => {
                                proof {
                                    if entries_compile(pairs@, pairs@.len()) {
                                        lemma_entries_compile_prefix(
                                            pairs@,
                                            (i + 1) as nat,
                                            pairs@.len(),
                                        );
                                    }
                                }
                                return Err(e);
                            },
                        }
                    } else if *key == ak {
                        proof {
                            assert(*pairs == schema->Object_0);
                            assert(decreases_to!(*schema => schema->Object_0));
                            assert(decreases_to!(*pairs => pairs[i as int]));
                            assert(decreases_to!(pairs[i as int] => pairs[i as int].1));
                        }
                        match value {
                            JsonValue::Array(elems) => {
                                proof {
                                    assert(*elems == value->Array_0);
                                    assert(decreases_to!(*value => value->Array_0));
                                }
                                let mut subs: Vec<Schema> = Vec::new();
                                let mut j: usize = 0;
                                while j < elems.len()
                                    invariant
                                        j <= elems@.len(),
                                        subs@.len() == j,
                                        decreases_to!(*schema => *elems),
                                        i < pairs@.len(),
                                        *schema == JsonValue::Object(*pairs),
                                        pairs@[i as int].0@ == all_of_key(),
                                        pairs@[i as int].0@ != multiple_of_key(),
                                        pairs@[i as int].0@ != items_key(),
                                        pairs@[i as int].1 == JsonValue::Array(*elems),
                                        elements_compile(elems@, j as nat),
                                        elements_model(subs@, elems@, j as nat),
                                        schemas_wf(subs@, j as nat),
                                    decreases elems@.len() - j,
                                {
                                    proof {
                                        assert(decreases_to!(*elems => elems[j as int]));
                                    }
                                    match Schema::compile(&elems[j]) {
                                        Ok(sub) => {
                                            proof {
                                                lemma_schemas_wf_push(subs@, sub, j as nat);
                                                lemma_elements_model_push(
                                                    subs@,
                                                    sub,
                                                    elems@,
                                                    j as nat,
                                                );
                                            }
                                            subs.push(sub);
                                        },
                                        Err(e) => {
                                            proof {
                                                if elements_compile(elems@, elems@.len()) {
                                                    lemma_elements_compile_prefix(
                                                        elems@,
                                                        (j + 1) as nat,
                                                        elems@.len(),
                                                    );
                                                }
                                                if entries_compile(pairs@, pairs@.len()) {
                                                    lemma_entries_compile_prefix(
                                                        pairs@,
                                                        (i + 1) as nat,
                                                        pairs@.len(),
                                                    );
                                                }
                                            }
                                            return Err(e);
                                        },
                                    }
                                    j = j + 1;
                                }
                                Keyword::AllOf(subs)
                            },
                            _ => {
                                proof {
                                    if entries_compile(pairs@, pairs@.len()) {
                                        lemma_entries_compile_prefix(
                                            pairs@,
                                            (i + 1) as nat,
                                            pairs@.len(),
                                        );
                                    }
                                }
                                return Err(CompilationError::SchemaError);
                            },
                        }
                    } else if *key == pk {
                        proof {
                            assert(*pairs == schema->Object_0);
                            assert(decreases_to!(*schema => schema->Object_0));
                            assert(decreases_to!(*pairs => pairs[i as int]));
                            assert(decreases_to!(pairs[i as int] => pairs[i as int].1));
                        }
                        match value {
                            JsonValue::Object(ps) => {
                                proof {
                                    assert(*ps == value->Object_0);
                                    assert(decreases_to!(*value => value->Object_0));
                                }
                                let mut props: Vec<(String, Schema)> = Vec::new();
                                let mut j: usize = 0;
                                while j < ps.len()
                                    invariant
                                        j <= ps@.len(),
                                        props@.len() == j,
                                        decreases_to!(*schema => *ps),
                                        i < pairs@.len(),
                                        *schema == JsonValue::Object(*pairs),
                                        pairs@[i as int].0@ == properties_key(),
                                        pairs@[i as int].0@ != multiple_of_key(),
                                        pairs@[i as int].0@ != items_key(),
                                        pairs@[i as int].0@ != all_of_key(),
                                        pairs@[i as int].1 == JsonValue::Object(*ps),
                                        entries_compile_all(ps@, j as nat),
                                        props_model(props@, ps@, j as nat),
                                        props_wf(props@, j as nat),
                                    decreases ps@.len() - j,
                                {
                                    proof {
                                        assert(decreases_to!(*ps => ps[j as int]));
                                        assert(decreases_to!(ps[j as int] => ps[j as int].1));
                                    }
                                    let (name, sub_doc) = &ps[j];
                                    match Schema::compile(sub_doc) {
                                        Ok(sub) => {
                                            let entry = (name.clone(), sub);
                                            proof {
                                                lemma_props_wf_push(props@, entry, j as nat);
                                                lemma_props_model_push(props@, entry, ps@, j as nat);
                                            }
                                            props.push(entry);
                                        },
                                        Err(e) => {
                                            proof {
                                                if entries_compile_all(ps@, ps@.len()) {
                                                    lemma_entries_compile_all_prefix(
                                                        ps@,
                                                        (j + 1) as nat,
                                                        ps@.len(),
                                                    );
                                                }
                                                if entries_compile(pairs@, pairs@.len()) {
                                                    lemma_entries_compile_prefix(
                                                        pairs@,
                                                        (i + 1) as nat,
                                                        pairs@.len(),
                                                    );
                                                }
                                            }
                                            return Err(e);
                                        },
                                    }
                                    j = j + 1;
                                }
                                Keyword::Properties(props)
                            },
                            _ => {
                                proof {
                                    if entries_compile(pairs@, pairs@.len()) {
                                        lemma_entries_compile_prefix(
                                            pairs@,
                                            (i + 1) as nat,
                                            pairs@.len(),
                                        );
                                    }
                                }
                                return Err(CompilationError::SchemaError);
                            },
                        }
                    } else {
                        Keyword::Ignored
                    };
                    proof {
                        lemma_keywords_wf_push(kws@, kw, i as nat);
                        lemma_entries_model_push(kws@, kw, pairs@, i as nat);
                    }
                    kws.push(kw);
                    i = i + 1;
                }
                Ok(Schema::Keywords(kws))
            },
            _ => Err(CompilationError::SchemaError),
        }
    }
}

/// Appending a keyword leaves the well-formedness of a prefix as it was.
proof fn lemma_keywords_wf_push(kws: Seq<Keyword>, k: Keyword, n: nat)
    requires
        n <= kws.len(),
    ensures
        keywords_wf(kws.push(k), n) == keywords_wf(kws, n),
    decreases n,
{
    if n > 0 {
        lemma_keywords_wf_push(kws, k, (n - 1) as nat);
        assert(kws.push(k)[n - 1] == kws[n - 1]);
    }
}

/// Appending a keyword leaves the correspondence of a prefix as it was.
proof fn lemma_entries_model_push(
    kws: Seq<Keyword>,
    k: Keyword,
    pairs: Seq<(String, JsonValue)>,
    n: nat,
)
    requires
        n <= kws.len(),
    ensures
        entries_model(kws.push(k), pairs, n) == entries_model(kws, pairs, n),
    decreases n,
{
    if n > 0 {
        lemma_entries_model_push(kws, k, pairs, (n - 1) as nat);
        assert(kws.push(k)[n - 1] == kws[n - 1]);
    }
}

/// Failing one of the first `m` entries fails every longer prefix.
proof fn lemma_entries_compile_prefix(pairs: Seq<(String, JsonValue)>, m: nat, n: nat)
    requires
        m <= n <= pairs.len(),
        entries_compile(pairs, n),
    ensures
        entries_compile(pairs, m),
    decreases n - m,
{
    if m < n {
        lemma_entries_compile_prefix(pairs, m, (n - 1) as nat);
    }
}

/// Appending a named schema leaves the well-formedness of a prefix as it was.
proof fn lemma_props_wf_push(props: Seq<(String, Schema)>, x: (String, Schema), n: nat)
    requires
        n <= props.len(),
    ensures
        props_wf(props.push(x), n) == props_wf(props, n),
    decreases n,
{
    if n > 0 {
        lemma_props_wf_push(props, x, (n - 1) as nat);
        assert(props.push(x)[n - 1] == props[n - 1]);
    }
}

/// Appending a named schema leaves the correspondence of a prefix as it was.
proof fn lemma_props_model_push(
    props: Seq<(String, Schema)>,
    x: (String, Schema),
    ps: Seq<(String, JsonValue)>,
    n: nat,
)
    requires
        n <= props.len(),
    ensures
        props_model(props.push(x), ps, n) == props_model(props, ps, n),
    decreases n,
{
    if n > 0 {
        lemma_props_model_push(props, x, ps, (n - 1) as nat);
        assert(props.push(x)[n - 1] == props[n - 1]);
    }
}

/// Failing one of the first `m` entry values fails every longer prefix.
proof fn lemma_entries_compile_all_prefix(ps: Seq<(String, JsonValue)>, m: nat, n: nat)
    requires
        m <= n <= ps.len(),
        entries_compile_all(ps, n),
    ensures
        entries_compile_all(ps, m),
    decreases n - m,
{
    if m < n {
        lemma_entries_compile_all_prefix(ps, m, (n - 1) as nat);
    }
}

/// Appending a schema leaves the well-formedness of a prefix as it was.
proof fn lemma_schemas_wf_push(subs: Seq<Schema>, x: Schema, n: nat)
    requires
        n <= subs.len(),
    ensures
        schemas_wf(subs.push(x), n) == schemas_wf(subs, n),
    decreases n,
{
    if n > 0 {
        lemma_schemas_wf_push(subs, x, (n - 1) as nat);
        assert(subs.push(x)[n - 1] == subs[n - 1]);
    }
}

/// Appending a schema leaves the correspondence of a prefix as it was.
proof fn lemma_elements_model_push(subs: Seq<Schema>, x: Schema, elems: Seq<JsonValue>, n: nat)
    requires
        n <= subs.len(),
    ensures
        elements_model(subs.push(x), elems, n) == elements_model(subs, elems, n),
    decreases n,
{
    if n > 0 {
        lemma_elements_model_push(subs, x, elems, (n - 1) as nat);
        assert(subs.push(x)[n - 1] == subs[n - 1]);
    }
}

/// Failing one of the first `m` schema documents fails every longer prefix.
proof fn lemma_elements_compile_prefix(elems: Seq<JsonValue>, m: nat, n: nat)
    requires
        m <= n <= elems.len(),
        elements_compile(elems, n),
    ensures
        elements_compile(elems, m),
    decreases n - m,
{
    if m < n {
        lemma_elements_compile_prefix(elems, m, (n - 1) as nat);
    }
}

} // verus!
