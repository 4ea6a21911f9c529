//! Describing a compiled schema as text.

use vstd::prelude::*;
use vstd::string::StringExecFns;
use crate::multiple_of::describe_text;
use crate::schema::{Keyword, Schema};
use crate::text::push_number;

verus! {

/// `", "` before every item but the first.
pub open spec fn separator(n: nat) -> Seq<char> {
    if n > 1 {
        ", "@
    } else {
        Seq::empty()
    }
}

/// The description of a compiled schema: `true`, `false`, or its keywords
/// between braces, separated by commas, in order.
pub open spec fn schema_text(s: Schema) -> Seq<char>
    decreases s, 0nat,
{
    match s {
        Schema::Bool(b) => if b {
            "true"@
        } else {
            "false"@
        },
        Schema::Keywords(kws) => "{"@ + keywords_text(kws@, kws@.len()) + "}"@,
    }
}

/// The descriptions of the first `n` keywords.
pub open spec fn keywords_text(kws: Seq<Keyword>, n: nat) -> Seq<char>
    decreases kws, n,
{
    if n == 0 || n > kws.len() {
        Seq::empty()
    } else {
        keywords_text(kws, (n - 1) as nat) + separator(n) + keyword_text(kws[n - 1])
    }
}

/// The description of one keyword.
pub open spec fn keyword_text(k: Keyword) -> Seq<char>
    decreases k, 0nat,
{
    match k {
        Keyword::MultipleOf(v) => describe_text(v.divisor()),
        Keyword::Items(sub) => "items: "@ + schema_text(*sub),
        Keyword::AllOf(subs) => "allOf: ["@ + schemas_text(subs@, subs@.len()) + "]"@,
        Keyword::Properties(props) => "properties: {"@ + props_text(props@, props@.len()) + "}"@,
        Keyword::Ignored => "(ignored)"@,
    }
}

/// The descriptions of the first `n` schemas.
pub open spec fn schemas_text(subs: Seq<Schema>, n: nat) -> Seq<char>
    decreases subs, n,
{
    if n == 0 || n > subs.len() {
        Seq::empty()
    } else {
        schemas_text(subs, (n - 1) as nat) + separator(n) + schema_text(subs[n - 1])
    }
}

/// The first `n` named schemas, each as `name: description`.
pub open spec fn props_text(props: Seq<(String, Schema)>, n: nat) -> Seq<char>
    decreases props, n,
{
    if n == 0 || n > props.len() {
        Seq::empty()
    } else {
        props_text(props, (n - 1) as nat) + separator(n) + props[n - 1].0@ + ": "@ + schema_text(
            props[n - 1].1,
        )
    }
}

fn push_separator(s: &mut String, n: usize)
    ensures
        final(s)@ == old(s)@ + separator(n as nat),
{
    if n > 1 {
        s.append(", ");
    } else {
        assert(old(s)@ =~= old(s)@ + separator(n as nat));
    }
}

/// Appends the description of `schema`.
fn push_schema(s: &mut String, schema: &Schema)
    ensures
        final(s)@ == old(s)@ + schema_text(*schema),
    decreases *schema,
{
    let ghost start = s@;
    match schema {
        Schema::Bool(b) => {
            if *b {
                s.append("true");
            } else {
                s.append("false");
            }
        },
        Schema::Keywords(kws) => {
            s.append("{");
            let ghost open = s@;
            let mut k: usize = 0;
            assert(open =~= open + keywords_text(kws@, 0));
            while k < kws.len()
                invariant
                    k <= kws@.len(),
                    *schema == Schema::Keywords(*kws),
                    s@ == open + keywords_text(kws@, k as nat),
                decreases kws@.len() - k,
            {
                push_separator(s, k + 1);
                proof {
                    assert(*kws == schema->Keywords_0);
                    assert(decreases_to!(*schema => schema->Keywords_0));
                    assert(decreases_to!(*kws => kws[k as int]));
                }
                let ghost mid = s@;
                match &kws[k] {
                    Keyword::MultipleOf(v) => {
                        s.append("multipleOf: ");
                        let d = match v {
                            crate::multiple_of::MultipleOfValidator::Integer(i) => i.multiple_of,
                            crate::multiple_of::MultipleOfValidator::Float(f) => f.multiple_of,
                        };
                        push_number(s, &d);
                        assert(s@ =~= mid + keyword_text(kws@[k as int]));
                    },
                    Keyword::Items(sub) => {
                        proof {
                            assert(decreases_to!(kws[k as int] => **sub));
                        }
                        s.append("items: ");
                        push_schema(s, sub);
                        assert(s@ =~= mid + keyword_text(kws@[k as int]));
                    },
                    Keyword::AllOf(subs) => {
                        proof {
                            assert(decreases_to!(kws[k as int] => *subs));
                        }
                        s.append("allOf: [");
                        let ghost inner = s@;
                        let mut j: usize = 0;
                        assert(inner =~= inner + schemas_text(subs@, 0));
                        while j < subs.len()
                            invariant
                                j <= subs@.len(),
                                decreases_to!(*schema => *subs),
                                s@ == inner + schemas_text(subs@, j as nat),
                            decreases subs@.len() - j,
                        {
                            proof {
                                assert(decreases_to!(*subs => subs[j as int]));
                            }
                            push_separator(s, j + 1);
                            push_schema(s, &subs[j]);
                            j = j + 1;
                            assert(s@ =~= inner + schemas_text(subs@, j as nat));
                        }
                        s.append("]");
                        assert(s@ =~= mid + keyword_text(kws@[k as int]));
                    },
                    Keyword::Properties(props) => {
                        proof {
                            assert(decreases_to!(kws[k as int] => *props));
                        }
                        s.append("properties: {");
                        let ghost inner = s@;
                        let mut j: usize = 0;
                        assert(inner =~= inner + props_text(props@, 0));
                        while j < props.len()
                            invariant
                                j <= props@.len(),
                                decreases_to!(*schema => *props),
                                s@ == inner + props_text(props@, j as nat),
                            decreases props@.len() - j,
                        {
                            proof {
                                assert(decreases_to!(*props => props[j as int]));
                                assert(decreases_to!(props[j as int] => props[j as int].1));
                            }
                            let (name, sub) = &props[j];
                            push_separator(s, j + 1);
                            s.append(name.as_str());
                            s.append(": ");
                            push_schema(s, sub);
                            j = j + 1;
                            assert(s@ =~= inner + props_text(props@, j as nat));
                        }
                        s.append("}");
                        assert(s@ =~= mid + keyword_text(kws@[k as int]));
                    },
                    Keyword::Ignored => {
                        s.append("(ignored)");
                        assert(s@ =~= mid + keyword_text(kws@[k as int]));
                    },
                }
                k = k + 1;
                assert(s@ =~= open + keywords_text(kws@, k as nat));
            }
            s.append("}");
        },
    }
    assert(s@ =~= start + schema_text(*schema));
}

impl Schema {
    /// The description of the compiled schema, such as
    /// `{multipleOf: 2, items: {multipleOf: 0.5}}`.
    pub fn to_string(&self) -> (r: String)
        ensures
            r@ == schema_text(*self),
    {
        let mut s = String::new();
        push_schema(&mut s, self);
        assert(s@ =~= schema_text(*self));
        s
    }
}

} // verus!
