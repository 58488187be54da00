//! The template renderer: literal substitution over a fixed token set.
//!
//! Each token is replaced only when its value is present; unrecognized
//! tokens pass through unchanged. Replacements are applied in a fixed
//! order, each seeing the output of the previous one.

use vstd::prelude::*;

use crate::text::{chars_string, replace_all, spec_replace, str_chars};

verus! {

/// A bag of optional named values used to resolve tokens in replacement
/// text. Constructed fresh per invocation; read-only.
pub struct Template {
    pub prev_version: Option<String>,
    pub prev_metadata: Option<String>,
    pub version: Option<String>,
    pub metadata: Option<String>,
    pub crate_name: Option<String>,
    pub date: Option<String>,
    pub prefix: Option<String>,
    pub tag_name: Option<String>,
}

/// One conditional substitution step.
pub open spec fn spec_subst(s: Seq<char>, token: Seq<char>, value: Option<String>) -> Seq<char> {
    if value is Some {
        spec_replace(s, token, value.unwrap()@)
    } else {
        s
    }
}

/// The rendering of `input` under template `t`: each present field replaces
/// its double-braced token, in the fixed field order.
pub open spec fn spec_render(t: Template, input: Seq<char>) -> Seq<char> {
    let s1 = spec_subst(input, "{{prev_version}}"@, t.prev_version);
    let s2 = spec_subst(s1, "{{prev_metadata}}"@, t.prev_metadata);
    let s3 = spec_subst(s2, "{{version}}"@, t.version);
    let s4 = spec_subst(s3, "{{metadata}}"@, t.metadata);
    let s5 = spec_subst(s4, "{{crate_name}}"@, t.crate_name);
    let s6 = spec_subst(s5, "{{date}}"@, t.date);
    let s7 = spec_subst(s6, "{{prefix}}"@, t.prefix);
    spec_subst(s7, "{{tag_name}}"@, t.tag_name)
}

impl Template {
    /// A template with no values set: rendering leaves any input unchanged.
    pub fn new() -> (r: Template)
        ensures
            r.prev_version is None,
            r.prev_metadata is None,
            r.version is None,
            r.metadata is None,
            r.crate_name is None,
            r.date is None,
            r.prefix is None,
            r.tag_name is None,
    {
        Template {
            prev_version: None,
            prev_metadata: None,
            version: None,
            metadata: None,
            crate_name: None,
            date: None,
            prefix: None,
            tag_name: None,
        }
    }

    /// Render `input`, substituting every token whose value is present.
    pub fn render(&self, input: &str) -> (r: String)
        ensures
            r@ == spec_render(*self, input@),
    {
        proof {
            reveal_strlit("{{prev_version}}");
            reveal_strlit("{{prev_metadata}}");
            reveal_strlit("{{version}}");
            reveal_strlit("{{metadata}}");
            reveal_strlit("{{crate_name}}");
            reveal_strlit("{{date}}");
            reveal_strlit("{{prefix}}");
            reveal_strlit("{{tag_name}}");
        }
        let mut cur: Vec<char> = str_chars(input);
        cur = subst(cur, "{{prev_version}}", &self.prev_version);
        cur = subst(cur, "{{prev_metadata}}", &self.prev_metadata);
        cur = subst(cur, "{{version}}", &self.version);
        cur = subst(cur, "{{metadata}}", &self.metadata);
        cur = subst(cur, "{{crate_name}}", &self.crate_name);
        cur = subst(cur, "{{date}}", &self.date);
        cur = subst(cur, "{{prefix}}", &self.prefix);
        cur = subst(cur, "{{tag_name}}", &self.tag_name);
        chars_string(&cur)
    }
}

/// Replace `token` by the value when one is present.
fn subst(s: Vec<char>, token: &str, value: &Option<String>) -> (r: Vec<char>)
    requires
        token@.len() > 0,
    ensures
        r@ == spec_subst(s@, token@, *value),
{
    match value {
        Some(v) => {
            let tok = str_chars(token);
            let rep = str_chars(v.as_str());
            replace_all(&s, &tok, &rep)
        },
        None => s,
    }
}

} // verus!
