//! The two execution modes over a compiled schema: fast boolean checking
//! and diagnostic enumeration of every violation.

use vstd::prelude::*;
use crate::error::{records, ErrorRecord, ValidationError};
use crate::schema::{
    all_accept, all_errors, items_accept, items_errors, keywords_accept, keywords_errors,
    keywords_wf, named_accept, named_errors, props_accept, props_errors, props_wf,
    schema_accepts, schema_errors, schema_wf, schemas_wf, Keyword, Schema,
};
use crate::value::{extend_path, JsonValue, PathSegment};

verus! {

impl Schema {
    /// Fast mode: whether `instance` satisfies the schema, stopping at the
    /// first failing keyword or element.
    pub fn is_valid(&self, instance: &JsonValue) -> (r: bool)
        requires
            schema_wf(*self),
        ensures
            r == schema_accepts(*self, *instance),
        decreases *self,
    {
        match self {
            Schema::Bool(b) => *b,
            Schema::Keywords(kws) => {
                let mut k: usize = 0;
                while k < kws.len()
                    invariant
                        k <= kws@.len(),
                        keywords_wf(kws@, kws@.len()),
                        keywords_accept(kws@, *instance, k as nat),
                        *self == Schema::Keywords(*kws),
                    decreases kws@.len() - k,
                {
                    proof {
                        lemma_keywords_wf_prefix(kws@, (k + 1) as nat, kws@.len());
                    }
                    let ok = match &kws[k] {
                        Keyword::MultipleOf(v) => v.is_valid(instance),
                        Keyword::Items(sub) => match instance {
                            JsonValue::Array(elems) => {
                                proof {
                                    assert(*kws == self->Keywords_0);
                                    assert(decreases_to!(*self => self->Keywords_0));
                                    assert(decreases_to!(*kws => kws[k as int]));
                                    assert(decreases_to!(kws[k as int] => **sub));
                                }
                                let mut j: usize = 0;
                                let mut all = true;
                                while j < elems.len()
                                    invariant_except_break
                                        all,
                                        items_accept(**sub, elems@, j as nat),
                                    invariant
                                        j <= elems@.len(),
                                        schema_wf(**sub),
                                        decreases_to!(*self => **sub),
                                    ensures
                                        all ==> items_accept(**sub, elems@, elems@.len()),
                                        !all ==> j < elems@.len() && !schema_accepts(
                                            **sub,
                                            elems@[j as int],
                                        ),
                                    decreases elems@.len() - j,
                                {
                                    if !sub.is_valid(&elems[j]) {
                                        all = false;
                                        break;
                                    }
                                    j = j + 1;
                                }
                                proof {
                                    if !all {
                                        if items_accept(**sub, elems@, elems@.len()) {
                                            lemma_items_accept_prefix(
                                                **sub,
                                                elems@,
                                                (j + 1) as nat,
                                                elems@.len(),
                                            );
                                        }
                                    }
                                }
                                all
                            },
                            _ => true,
                        },
                        Keyword::AllOf(subs) => {
                            proof {
                                assert(*kws == self->Keywords_0);
                                assert(decreases_to!(*self => self->Keywords_0));
                                assert(decreases_to!(*kws => kws[k as int]));
                                assert(decreases_to!(kws[k as int] => *subs));
                            }
                            let mut j: usize = 0;
                            let mut all = true;
                            while j < subs.len()
                                invariant_except_break
                                    all,
                                    all_accept(subs@, *instance, j as nat),
                                invariant
                                    j <= subs@.len(),
                                    schemas_wf(subs@, subs@.len()),
                                    decreases_to!(*self => *subs),
                                ensures
                                    all ==> all_accept(subs@, *instance, subs@.len()),
                                    !all ==> j < subs@.len() && !schema_accepts(
                                        subs@[j as int],
                                        *instance,
                                    ),
                                decreases subs@.len() - j,
                            {
                                proof {
                                    assert(decreases_to!(*subs => subs[j as int]));
                                    lemma_schemas_wf_prefix(subs@, (j + 1) as nat, subs@.len());
                                }
                                if !subs[j].is_valid(instance) {
                                    all = false;
                                    break;
                                }
                                j = j + 1;
                            }
                            proof {
                                if !all {
                                    if all_accept(subs@, *instance, subs@.len()) {
                                        lemma_all_accept_prefix(
                                            subs@,
                                            *instance,
                                            (j + 1) as nat,
                                            subs@.len(),
                                        );
                                    }
                                }
                            }
                            all
                        },
                        Keyword::Properties(props) => match instance {
                            JsonValue::Object(entries) => {
                            proof {
                                assert(*kws == self->Keywords_0);
                                assert(decreases_to!(*self => self->Keywords_0));
                                assert(decreases_to!(*kws => kws[k as int]));
                                assert(decreases_to!(kws[k as int] => *props));
                            }
                                let mut j: usize = 0;
                                let mut all = true;
                                while j < props.len()
                                    invariant_except_break
                                        all,
                                        props_accept(props@, entries@, j as nat),
                                    invariant
                                        j <= props@.len(),
                                        props_wf(props@, props@.len()),
                                        decreases_to!(*self => *props),
                                    ensures
                                        all ==> props_accept(props@, entries@, props@.len()),
                                        !all ==> j < props@.len() && !named_accept(
                                            props@[j as int].1,
                                            props@[j as int].0@,
                                            entries@,
                                            entries@.len(),
                                        ),
                                    decreases props@.len() - j,
                                {
                                    proof {
                                        assert(decreases_to!(*props => props[j as int]));
                                        assert(decreases_to!(props[j as int] => props[j as int].1));
                                        lemma_props_wf_prefix(props@, (j + 1) as nat, props@.len());
                                    }
                                    let (name, sub) = &props[j];
                                    let mut m: usize = 0;
                                    let mut ok = true;
                                    while m < entries.len()
                                        invariant_except_break
                                            ok,
                                            named_accept(*sub, name@, entries@, m as nat),
                                        invariant
                                            m <= entries@.len(),
                                            schema_wf(*sub),
                                            decreases_to!(*self => *sub),
                                        ensures
                                            ok ==> named_accept(*sub, name@, entries@, entries@.len()),
                                            !ok ==> m < entries@.len() && entries@[m as int].0@
                                                == name@ && !schema_accepts(
                                                *sub,
                                                entries@[m as int].1,
                                            ),
                                        decreases entries@.len() - m,
                                    {
                                        if entries[m].0 == *name {
                                            if !sub.is_valid(&entries[m].1) {
                                                ok = false;
                                                break;
                                            }
                                        }
                                        m = m + 1;
                                    }
                                    if !ok {
                                        proof {
                                            if named_accept(*sub, name@, entries@, entries@.len()) {
                                                lemma_named_accept_prefix(
                                                    *sub,
                                                    name@,
                                                    entries@,
                                                    (m + 1) as nat,
                                                    entries@.len(),
                                                );
                                            }
                                        }
                                        all = false;
                                        break;
                                    }
                                    j = j + 1;
                                }
                                proof {
                                    if !all {
                                        if props_accept(props@, entries@, props@.len()) {
                                            lemma_props_accept_prefix(
                                                props@,
                                                entries@,
                                                (j + 1) as nat,
                                                props@.len(),
                                            );
                                        }
                                    }
                                }
                                all
                            },
                            _ => true,
                        },
                        Keyword::Ignored => true,
                    };
                    if !ok {
                        proof {
                            if keywords_accept(kws@, *instance, kws@.len()) {
                                lemma_keywords_accept_prefix(
                                    kws@,
                                    *instance,
                                    (k + 1) as nat,
                                    kws@.len(),
                                );
                            }
                        }
                        return false;
                    }
                    k = k + 1;
                }
                true
            },
        }
    }

    /// Diagnostic mode: every violation of the schema by `instance` at
    /// `path`, in schema declaration order, each carrying its instance path.
    pub fn validate(&self, instance: &JsonValue, path: &Vec<PathSegment>) -> (r: Vec<
        ValidationError,
    >)
        requires
            schema_wf(*self),
        ensures
            records(r@) == schema_errors(*self, *instance, path@),
        decreases *self,
    {
        match self {
            Schema::Bool(b) => {
                let mut r: Vec<ValidationError> = Vec::new();
                if !*b {
                    r.push(ValidationError::false_schema(path));
                }
                assert(records(r@) =~= schema_errors(*self, *instance, path@));
                r
            },
            Schema::Keywords(kws) => {
                let mut r: Vec<ValidationError> = Vec::new();
                let mut k: usize = 0;
                assert(records(r@) =~= keywords_errors(kws@, *instance, path@, 0));
                while k < kws.len()
                    invariant
                        k <= kws@.len(),
                        keywords_wf(kws@, kws@.len()),
                        records(r@) == keywords_errors(kws@, *instance, path@, k as nat),
                        *self == Schema::Keywords(*kws),
                    decreases kws@.len() - k,
                {
                    proof {
                        lemma_keywords_wf_prefix(kws@, (k + 1) as nat, kws@.len());
                    }
                    let mut more = match &kws[k] {
                        Keyword::MultipleOf(v) => v.validate(instance, path),
                        Keyword::Items(sub) => match instance {
                            JsonValue::Array(elems) => {
                                proof {
                                    assert(*kws == self->Keywords_0);
                                    assert(decreases_to!(*self => self->Keywords_0));
                                    assert(decreases_to!(*kws => kws[k as int]));
                                    assert(decreases_to!(kws[k as int] => **sub));
                                }
                                let mut e: Vec<ValidationError> = Vec::new();
                                let mut j: usize = 0;
                                assert(records(e@) =~= items_errors(**sub, elems@, path@, 0));
                                while j < elems.len()
                                    invariant
                                        j <= elems@.len(),
                                        schema_wf(**sub),
                                        decreases_to!(*self => **sub),
                                        records(e@) == items_errors(
                                            **sub,
                                            elems@,
                                            path@,
                                            j as nat,
                                        ),
                                    decreases elems@.len() - j,
                                {
                                    let p = extend_path(path, PathSegment::Index(j));
                                    let mut one = sub.validate(&elems[j], &p);
                                    proof {
                                        lemma_records_append(e@, one@);
                                    }
                                    e.append(&mut one);
                                    j = j + 1;
                                }
                                e
                            },
                            _ => Vec::new(),
                        },
                        Keyword::AllOf(subs) => {
                            proof {
                                assert(*kws == self->Keywords_0);
                                assert(decreases_to!(*self => self->Keywords_0));
                                assert(decreases_to!(*kws => kws[k as int]));
                                assert(decreases_to!(kws[k as int] => *subs));
                            }
                            let mut e: Vec<ValidationError> = Vec::new();
                            let mut j: usize = 0;
                            assert(records(e@) =~= all_errors(subs@, *instance, path@, 0));
                            while j < subs.len()
                                invariant
                                    j <= subs@.len(),
                                    schemas_wf(subs@, subs@.len()),
                                    decreases_to!(*self => *subs),
                                    records(e@) == all_errors(subs@, *instance, path@, j as nat),
                                decreases subs@.len() - j,
                            {
                                proof {
                                    assert(decreases_to!(*subs => subs[j as int]));
                                    lemma_schemas_wf_prefix(subs@, (j + 1) as nat, subs@.len());
                                }
                                let mut one = subs[j].validate(instance, path);
                                proof {
                                    lemma_records_append(e@, one@);
                                }
                                e.append(&mut one);
                                j = j + 1;
                            }
                            e
                        },
                        Keyword::Properties(props) => match instance {
                            JsonValue::Object(entries) => {
                            proof {
                                assert(*kws == self->Keywords_0);
                                assert(decreases_to!(*self => self->Keywords_0));
                                assert(decreases_to!(*kws => kws[k as int]));
                                assert(decreases_to!(kws[k as int] => *props));
                            }
                                let mut e: Vec<ValidationError> = Vec::new();
                                let mut j: usize = 0;
                                assert(records(e@) =~= props_errors(props@, entries@, path@, 0));
                                while j < props.len()
                                    invariant
                                        j <= props@.len(),
                                        props_wf(props@, props@.len()),
                                        decreases_to!(*self => *props),
                                        records(e@) == props_errors(
                                            props@,
                                            entries@,
                                            path@,
                                            j as nat,
                                        ),
                                    decreases props@.len() - j,
                                {
                                    proof {
                                        assert(decreases_to!(*props => props[j as int]));
                                        assert(decreases_to!(props[j as int] => props[j as int].1));
                                        lemma_props_wf_prefix(props@, (j + 1) as nat, props@.len());
                                    }
                                    let (name, sub) = &props[j];
                                    let mut f: Vec<ValidationError> = Vec::new();
                                    let mut m: usize = 0;
                                    assert(records(f@) =~= named_errors(
                                        *sub,
                                        name@,
                                        entries@,
                                        path@,
                                        0,
                                    ));
                                    while m < entries.len()
                                        invariant
                                            m <= entries@.len(),
                                            schema_wf(*sub),
                                            decreases_to!(*self => *sub),
                                            records(f@) == named_errors(
                                                *sub,
                                                name@,
                                                entries@,
                                                path@,
                                                m as nat,
                                            ),
                                        decreases entries@.len() - m,
                                    {
                                        if entries[m].0 == *name {
                                            let p = extend_path(
                                                path,
                                                PathSegment::Key(entries[m].0.clone()),
                                            );
                                            let mut one = sub.validate(&entries[m].1, &p);
                                            proof {
                                                lemma_records_append(f@, one@);
                                            }
                                            f.append(&mut one);
                                        } else {
                                            proof {
                                                assert(named_errors(
                                                    *sub,
                                                    name@,
                                                    entries@,
                                                    path@,
                                                    (m + 1) as nat,
                                                ) =~= named_errors(
                                                    *sub,
                                                    name@,
                                                    entries@,
                                                    path@,
                                                    m as nat,
                                                ));
                                            }
                                        }
                                        m = m + 1;
                                    }
                                    proof {
                                        lemma_records_append(e@, f@);
                                    }
                                    e.append(&mut f);
                                    j = j + 1;
                                }
                                e
                            },
                            _ => Vec::new(),
                        },
                        Keyword::Ignored => Vec::new(),
                    };
                    proof {
                        lemma_records_append(r@, more@);
                        assert(records(Seq::<ValidationError>::empty()) =~= Seq::<
                            ErrorRecord,
                        >::empty());
                    }
                    r.append(&mut more);
                    k = k + 1;
                }
                r
            },
        }
    }
}

/// Failing one of the first `m` keywords fails every longer prefix.
proof fn lemma_keywords_accept_prefix(kws: Seq<Keyword>, instance: JsonValue, m: nat, n: nat)
    requires
        m <= n <= kws.len(),
        keywords_accept(kws, instance, n),
    ensures
        keywords_accept(kws, instance, m),
    decreases n - m,
{
    if m < n {
        lemma_keywords_accept_prefix(kws, instance, m, (n - 1) as nat);
    }
}

/// Failing one of the first `m` elements fails every longer prefix.
proof fn lemma_items_accept_prefix(s: Schema, elems: Seq<JsonValue>, m: nat, n: nat)
    requires
        m <= n <= elems.len(),
        items_accept(s, elems, n),
    ensures
        items_accept(s, elems, m),
    decreases n - m,
{
    if m < n {
        lemma_items_accept_prefix(s, elems, m, (n - 1) as nat);
    }
}

/// The records of two error vectors, concatenated, are the concatenated records.
proof fn lemma_records_append(a: Seq<ValidationError>, b: Seq<ValidationError>)
    ensures
        records(a + b) == records(a) + records(b),
{
    assert(records(a + b) =~= records(a) + records(b));
}

/// Well-formedness of all keywords gives well-formedness of each prefix.
proof fn lemma_keywords_wf_prefix(kws: Seq<Keyword>, m: nat, n: nat)
    requires
        m <= n <= kws.len(),
        keywords_wf(kws, n),
    ensures
        keywords_wf(kws, m),
    decreases n - m,
{
    if m < n {
        lemma_keywords_wf_prefix(kws, m, (n - 1) as nat);
    }
}

/// Failing one of the first `m` named sub-schemas fails every longer prefix.
proof fn lemma_props_accept_prefix(
    props: Seq<(String, Schema)>,
    entries: Seq<(String, JsonValue)>,
    m: nat,
    n: nat,
)
    requires
        m <= n <= props.len(),
        props_accept(props, entries, n),
    ensures
        props_accept(props, entries, m),
    decreases n - m,
{
    if m < n {
        lemma_props_accept_prefix(props, entries, m, (n - 1) as nat);
    }
}

/// Failing on one of the first `m` entries fails every longer prefix.
proof fn lemma_named_accept_prefix(
    s: Schema,
    name: Seq<char>,
    entries: Seq<(String, JsonValue)>,
    m: nat,
    n: nat,
)
    requires
        m <= n <= entries.len(),
        named_accept(s, name, entries, n),
    ensures
        named_accept(s, name, entries, m),
    decreases n - m,
{
    if m < n {
        lemma_named_accept_prefix(s, name, entries, m, (n - 1) as nat);
    }
}

/// Well-formedness of all named sub-schemas gives well-formedness of each
/// prefix.
proof fn lemma_props_wf_prefix(props: Seq<(String, Schema)>, m: nat, n: nat)
    requires
        m <= n <= props.len(),
        props_wf(props, n),
    ensures
        props_wf(props, m),
    decreases n - m,
{
    if m < n {
        lemma_props_wf_prefix(props, m, (n - 1) as nat);
    }
}

/// Failing one of the first `m` sub-schemas fails every longer prefix.
proof fn lemma_all_accept_prefix(subs: Seq<Schema>, instance: JsonValue, m: nat, n: nat)
    requires
        m <= n <= subs.len(),
        all_accept(subs, instance, n),
    ensures
        all_accept(subs, instance, m),
    decreases n - m,
{
    if m < n {
        lemma_all_accept_prefix(subs, instance, m, (n - 1) as nat);
    }
}

/// Well-formedness of all sub-schemas gives well-formedness of each prefix.
proof fn lemma_schemas_wf_prefix(subs: Seq<Schema>, m: nat, n: nat)
    requires
        m <= n <= subs.len(),
        schemas_wf(subs, n),
    ensures
        schemas_wf(subs, m),
    decreases n - m,
{
    if m < n {
        lemma_schemas_wf_prefix(subs, m, (n - 1) as nat);
    }
}

} // verus!
