//! Context handed to the backend: project facts assembled into a
//! prompt, or compressed through the compact notation.

use vstd::prelude::*;
use crate::toon::{ToonValue, ToonV, list_view, fields_view, lemma_list_view_index,
    lemma_fields_view_index, lemma_list_view_len, lemma_fields_view_len};
use crate::text::{sp_nat_digits, nat_to_string};
use crate::template::copy_string;

verus! {

/// Indentation style.
#[derive(Debug, Clone)]
pub enum IndentStyle {
    /// Spaces, with the count.
    Spaces(u8),
    /// Tabs.
    Tabs,
}

/// Quote style for strings.
#[derive(Debug, Clone)]
pub enum QuoteStyle {
    Single,
    Double,
}

/// Naming convention.
#[derive(Debug, Clone)]
pub enum NamingConvention {
    CamelCase,
    PascalCase,
    SnakeCase,
    KebabCase,
}

/// Coding style preferences.
#[derive(Debug, Clone)]
pub struct StyleGuide {
    /// Indentation style.
    pub indent: IndentStyle,
    /// Maximum line length.
    pub max_line_length: Option<usize>,
    /// Whether to use semicolons.
    pub semicolons: Option<bool>,
    /// Quote style for strings.
    pub quote_style: Option<QuoteStyle>,
    /// Naming convention.
    pub naming_convention: Option<NamingConvention>,
}

impl Default for StyleGuide {
    /// Four spaces, lines up to one hundred characters.
    fn default() -> (r: StyleGuide)
        ensures
            r.indent is Spaces && r.indent->0 == 4,
            r.max_line_length == Option::Some(100usize),
    {
        StyleGuide {
            indent: IndentStyle::Spaces(4),
            max_line_length: Some(100),
            semicolons: None,
            quote_style: None,
            naming_convention: None,
        }
    }
}

/// Context for generation: project facts the backend should respect.
#[derive(Debug)]
pub struct InjectionContext {
    /// Project name.
    pub project: Option<String>,
    /// Target language.
    pub language: Option<String>,
    /// Framework in use.
    pub framework: Option<String>,
    /// Coding style preferences.
    pub style: Option<StyleGuide>,
    /// Surrounding code.
    pub surrounding_code: Option<String>,
    /// Imports available at the injection site.
    pub available_imports: Vec<String>,
    /// Custom variables for template expansion.
    pub variables: Vec<(String, String)>,
    /// Additional structured metadata.
    pub extra: Vec<(String, ToonValue)>,
}

impl InjectionContext {
    /// An empty context.
    pub fn new() -> (r: InjectionContext)
        ensures
            r.project is None,
            r.language is None,
            r.framework is None,
            r.style is None,
            r.surrounding_code is None,
            r.available_imports@.len() == 0,
            r.variables@.len() == 0,
            r.extra@.len() == 0,
    {
        InjectionContext {
            project: None,
            language: None,
            framework: None,
            style: None,
            surrounding_code: None,
            available_imports: Vec::new(),
            variables: Vec::new(),
            extra: Vec::new(),
        }
    }

    /// Set the project name.
    pub fn with_project(self, project: String) -> (r: InjectionContext)
        ensures
            r == (InjectionContext { project: Option::Some(project), ..self }),
    {
        let mut c = self;
        c.project = Some(project);
        c
    }

    /// Set the target language.
    pub fn with_language(self, language: String) -> (r: InjectionContext)
        ensures
            r == (InjectionContext { language: Option::Some(language), ..self }),
    {
        let mut c = self;
        c.language = Some(language);
        c
    }

    /// Set the framework.
    pub fn with_framework(self, framework: String) -> (r: InjectionContext)
        ensures
            r == (InjectionContext { framework: Option::Some(framework), ..self }),
    {
        let mut c = self;
        c.framework = Some(framework);
        c
    }

    /// Set the style guide.
    pub fn with_style(self, style: StyleGuide) -> (r: InjectionContext)
        ensures
            r == (InjectionContext { style: Option::Some(style), ..self }),
    {
        let mut c = self;
        c.style = Some(style);
        c
    }

    /// Set the surrounding code.
    pub fn with_surrounding_code(self, code: String) -> (r: InjectionContext)
        ensures
            r == (InjectionContext { surrounding_code: Option::Some(code), ..self }),
    {
        let mut c = self;
        c.surrounding_code = Some(code);
        c
    }

    /// Add an available import.
    pub fn add_import(self, import: String) -> (r: InjectionContext)
        ensures
            r.available_imports@ == self.available_imports@.push(import),
            r.project == self.project,
            r.language == self.language,
            r.framework == self.framework,
    {
        let mut c = self;
        c.available_imports.push(import);
        c
    }

    /// Set a custom variable.
    pub fn set_variable(self, key: String, value: String) -> (r: InjectionContext)
        ensures
            r.variables@ == self.variables@.push((key, value)),
            r.project == self.project,
            r.language == self.language,
            r.framework == self.framework,
    {
        let mut c = self;
        c.variables.push((key, value));
        c
    }

    /// The plain-text prompt of this context: one labelled line per
    /// present fact, joined by newlines.
    #[verifier::rlimit(100)]
    #[verifier::spinoff_prover]
    pub fn to_prompt(&self) -> (r: String)
        ensures
            r@ == sp_ctx_prompt(self),
    {
        let mut parts: Vec<String> = Vec::new();
        if let Some(p) = &self.project {
            let mut s = String::new();
            s.append("Project: ");
            s.append(p.as_str());
            parts.push(s);
        }
        if let Some(l) = &self.language {
            let mut s = String::new();
            s.append("Language: ");
            s.append(l.as_str());
            parts.push(s);
        }
        if let Some(f) = &self.framework {
            let mut s = String::new();
            s.append("Framework: ");
            s.append(f.as_str());
            parts.push(s);
        }
        if let Some(st) = &self.style {
            let mut s = String::new();
            s.append("Style: ");
            match &st.indent {
                IndentStyle::Spaces(n) => {
                    s.append(nat_to_string(*n as u64).as_str());
                    s.append(" spaces indent");
                },
                IndentStyle::Tabs => {
                    s.append("tabs indent");
                },
            }
            if let Some(m) = st.max_line_length {
                s.append(", max ");
                s.append(nat_to_string(m as u64).as_str());
                s.append(" chars per line");
            }
            parts.push(s);
        }
        if self.available_imports.len() > 0 {
            let mut s = String::new();
            s.append("Available imports: ");
            let n: usize = self.available_imports.len();
            s.append(self.available_imports[0].as_str());
            let mut i: usize = 1;
            proof {
                reveal_strlit(", ");
                let dv = self.available_imports.deep_view();
                assert(dv[0] == self.available_imports@[0]@);
                if n >= 2 {
                    assert(dv.drop_first() =~= dv.subrange(1, n as int));
                    assert(sp_join_comma(dv) == dv[0] + seq![',', ' '] + sp_join_comma(
                        dv.subrange(1, n as int),
                    ));
                } else {
                    assert(sp_join_comma(dv) == dv[0]);
                }
            }
            while i < n
                invariant
                    1 <= i <= n,
                    self.available_imports.deep_view().len() == n,
                    n == self.available_imports@.len(),
                    s@ + (if i < n {
                        seq![',', ' '] + sp_join_comma(
                            self.available_imports.deep_view().subrange(i as int, n as int),
                        )
                    } else {
                        Seq::<char>::empty()
                    }) == "Available imports: "@ + sp_join_comma(
                        self.available_imports.deep_view(),
                    ),
                decreases n - i,
            {
                proof {
                    reveal_strlit(", ");
                    let dv = self.available_imports.deep_view();
                    assert(dv.subrange(i as int, n as int).drop_first() =~= dv.subrange(
                        i + 1,
                        n as int,
                    ));
                    assert(dv.subrange(i as int, n as int)[0] == dv[i as int]);
                    assert(dv[i as int] == self.available_imports@[i as int]@);
                }
                s.append(", ");
                s.append(self.available_imports[i].as_str());
                i = i + 1;
                proof {
                    reveal_strlit(", ");
                    let dv = self.available_imports.deep_view();
                    let suf = dv.subrange(i - 1, n as int);
                    if i < n {
                        assert(sp_join_comma(suf) == suf[0] + seq![',', ' '] + sp_join_comma(
                            suf.drop_first(),
                        ));
                    } else {
                        assert(sp_join_comma(suf) == suf[0]);
                    }
                    assert(s@ + (if i < n {
                        seq![',', ' '] + sp_join_comma(dv.subrange(i as int, n as int))
                    } else {
                        Seq::<char>::empty()
                    }) =~= "Available imports: "@ + sp_join_comma(dv));
                }
            }
            parts.push(s);
        }
        if let Some(code) = &self.surrounding_code {
            let mut s = String::new();
            s.append("Surrounding code:\n```\n");
            s.append(code.as_str());
            s.append("\n```");
            parts.push(s);
        }
        // join with newlines
        proof {
            assert(parts.deep_view() =~~= sp_ctx_parts(self));
        }
        let m: usize = parts.len();
        let mut out = String::new();
        let mut j: usize = 0;
        proof {
            assert(parts.deep_view().subrange(0, m as int) =~= parts.deep_view());
        }
        while j < m
            invariant
                j <= m,
                m == parts@.len(),
                out@ + (if j < m {
                    (if j > 0 {
                        seq!['\n']
                    } else {
                        Seq::<char>::empty()
                    }) + sp_join_nl(parts.deep_view().subrange(j as int, m as int))
                } else {
                    Seq::<char>::empty()
                }) == sp_join_nl(parts.deep_view()),
            decreases m - j,
        {
            proof {
                reveal_strlit("\n");
                let dv = parts.deep_view();
                assert(dv.subrange(j as int, m as int).drop_first() =~= dv.subrange(
                    j + 1,
                    m as int,
                ));
                assert(dv.subrange(j as int, m as int)[0] == dv[j as int]);
                assert(dv[j as int] == parts@[j as int]@);
            }
            if j > 0 {
                out.append("\n");
            }
            out.append(parts[j].as_str());
            j = j + 1;
            proof {
                reveal_strlit("\n");
                let dv = parts.deep_view();
                let suf = dv.subrange(j - 1, m as int);
                if j < m {
                    assert(sp_join_nl(suf) == suf[0] + seq!['\n'] + sp_join_nl(suf.drop_first()));
                } else {
                    assert(sp_join_nl(suf) == suf[0]);
                }
                assert(out@ + (if j < m {
                    seq!['\n'] + sp_join_nl(dv.subrange(j as int, m as int))
                } else {
                    Seq::<char>::empty()
                }) =~= sp_join_nl(dv));
            }
        }
        proof {
            if m == 0 {
                assert(sp_join_nl(parts.deep_view()) =~= Seq::<char>::empty());
            }
            assert(out@ =~= sp_ctx_prompt(self));
        }
        out
    }

    /// The structured value of this context, for compression: present
    /// textual facts, imports, and variables, as one object.
    pub fn to_toon(&self) -> (r: ToonValue)
        ensures
            r@ == sp_ctx_toon(self),
    {
        let mut fields: Vec<(String, ToonValue)> = Vec::new();
        let ghost target = sp_ctx_toon_fields(self);
        if let Some(p) = &self.project {
            let mut key = String::new();
            key.append("project");
            fields.push((key, ToonValue::Text(copy_string(p.as_str()))));
        }
        if let Some(l) = &self.language {
            let mut key = String::new();
            key.append("language");
            fields.push((key, ToonValue::Text(copy_string(l.as_str()))));
        }
        if let Some(f) = &self.framework {
            let mut key = String::new();
            key.append("framework");
            fields.push((key, ToonValue::Text(copy_string(f.as_str()))));
        }
        let mut imports: Vec<ToonValue> = Vec::new();
        let n: usize = self.available_imports.len();
        let mut i: usize = 0;
        while i < n
            invariant
                i <= n,
                n == self.available_imports@.len(),
                imports@.len() == i,
                forall|t: int|
                    0 <= t < i ==> (#[trigger] imports@[t])@ == ToonV::Text(
                        self.available_imports@[t]@,
                    ),
            decreases n - i,
        {
            imports.push(ToonValue::Text(copy_string(self.available_imports[i].as_str())));
            i = i + 1;
        }
        let mut key = String::new();
        key.append("imports");
        fields.push((key, ToonValue::List(imports)));
        let mut vars: Vec<(String, ToonValue)> = Vec::new();
        let vn: usize = self.variables.len();
        let mut v: usize = 0;
        while v < vn
            invariant
                v <= vn,
                vn == self.variables@.len(),
                vars@.len() == v,
                forall|t: int|
                    0 <= t < v ==> (#[trigger] vars@[t]).0@ == self.variables@[t].0@
                        && vars@[t].1@ == ToonV::Text(self.variables@[t].1@),
            decreases vn - v,
        {
            vars.push(
                (
                    copy_string(self.variables[v].0.as_str()),
                    ToonValue::Text(copy_string(self.variables[v].1.as_str())),
                ),
            );
            v = v + 1;
        }
        let mut vkey = String::new();
        vkey.append("variables");
        fields.push((vkey, ToonValue::Object(vars)));
        proof {
            lemma_fields_view_len(fields@);
            assert forall|t: int| 0 <= t < fields@.len() implies #[trigger] fields_view(
                fields@,
            )[t] == target[t] by {
                lemma_fields_view_index(fields@, t);
                if t >= fields@.len() - 2 {
                    lemma_list_view_pointwise(imports@, self);
                    lemma_fields_view_pointwise_vars(vars@, self);
                }
            }
            assert(fields_view(fields@) =~= target);
        }
        ToonValue::Object(fields)
    }
}

proof fn lemma_list_view_pointwise(items: Seq<ToonValue>, c: &InjectionContext)
    requires
        items.len() == c.available_imports@.len(),
        forall|t: int|
            0 <= t < items.len() ==> (#[trigger] items[t])@ == ToonV::Text(
                c.available_imports@[t]@,
            ),
    ensures
        list_view(items) == sp_imports_list(c),
{
    lemma_list_view_len(items);
    assert forall|t: int| 0 <= t < items.len() implies #[trigger] list_view(items)[t]
        == sp_imports_list(c)[t] by {
        lemma_list_view_index(items, t);
    }
    assert(list_view(items) =~= sp_imports_list(c));
}

proof fn lemma_fields_view_pointwise_vars(vars: Seq<(String, ToonValue)>, c: &InjectionContext)
    requires
        vars.len() == c.variables@.len(),
        forall|t: int|
            0 <= t < vars.len() ==> (#[trigger] vars[t]).0@ == c.variables@[t].0@ && vars[t].1@
                == ToonV::Text(c.variables@[t].1@),
    ensures
        fields_view(vars) == sp_vars_fields(c),
{
    lemma_fields_view_len(vars);
    assert forall|t: int| 0 <= t < vars.len() implies #[trigger] fields_view(vars)[t]
        == sp_vars_fields(c)[t] by {
        lemma_fields_view_index(vars, t);
    }
    assert(fields_view(vars) =~= sp_vars_fields(c));
}

/// Join with `", "`.
pub open spec fn sp_join_comma(parts: Seq<Seq<char>>) -> Seq<char>
    decreases parts.len(),
{
    if parts.len() == 0 {
        Seq::empty()
    } else if parts.len() == 1 {
        parts[0]
    } else {
        parts[0] + seq![',', ' '] + sp_join_comma(parts.drop_first())
    }
}

/// Join with newlines.
pub open spec fn sp_join_nl(parts: Seq<Seq<char>>) -> Seq<char>
    decreases parts.len(),
{
    if parts.len() == 0 {
        Seq::empty()
    } else if parts.len() == 1 {
        parts[0]
    } else {
        parts[0] + seq!['\n'] + sp_join_nl(parts.drop_first())
    }
}

/// The style line's text.
pub open spec fn sp_style_part(st: StyleGuide) -> Seq<char> {
    let indent_part = match st.indent {
        IndentStyle::Spaces(n) => sp_nat_digits(n as nat) + " spaces indent"@,
        IndentStyle::Tabs => "tabs indent"@,
    };
    let len_part = match st.max_line_length {
        Option::Some(m) => ", max "@ + sp_nat_digits(m as nat) + " chars per line"@,
        Option::None => Seq::<char>::empty(),
    };
    "Style: "@ + indent_part + len_part
}

/// The parts of the plain-text prompt, in order.
pub open spec fn sp_ctx_parts(c: &InjectionContext) -> Seq<Seq<char>> {
    let p0 = match c.project {
        Option::Some(p) => seq!["Project: "@ + p@],
        Option::None => Seq::<Seq<char>>::empty(),
    };
    let p1 = match c.language {
        Option::Some(l) => seq!["Language: "@ + l@],
        Option::None => Seq::<Seq<char>>::empty(),
    };
    let p2 = match c.framework {
        Option::Some(f) => seq!["Framework: "@ + f@],
        Option::None => Seq::<Seq<char>>::empty(),
    };
    let p3 = match c.style {
        Option::Some(st) => seq![sp_style_part(st)],
        Option::None => Seq::<Seq<char>>::empty(),
    };
    let p4 = if c.available_imports@.len() > 0 {
        seq!["Available imports: "@ + sp_join_comma(c.available_imports.deep_view())]
    } else {
        Seq::<Seq<char>>::empty()
    };
    let p5 = match c.surrounding_code {
        Option::Some(code) => seq!["Surrounding code:\n```\n"@ + code@ + "\n```"@],
        Option::None => Seq::<Seq<char>>::empty(),
    };
    p0 + p1 + p2 + p3 + p4 + p5
}

/// The plain-text prompt of a context.
pub open spec fn sp_ctx_prompt(c: &InjectionContext) -> Seq<char> {
    sp_join_nl(sp_ctx_parts(c))
}

pub open spec fn sp_imports_list(c: &InjectionContext) -> Seq<ToonV> {
    Seq::new(c.available_imports@.len(), |t: int| ToonV::Text(c.available_imports@[t]@))
}

pub open spec fn sp_vars_fields(c: &InjectionContext) -> Seq<(Seq<char>, ToonV)> {
    Seq::new(c.variables@.len(), |t: int| (c.variables@[t].0@, ToonV::Text(c.variables@[t].1@)))
}

/// The fields of the structured form of a context.
pub open spec fn sp_ctx_toon_fields(c: &InjectionContext) -> Seq<(Seq<char>, ToonV)> {
    let f0 = match c.project {
        Option::Some(p) => seq![("project"@, ToonV::Text(p@))],
        Option::None => Seq::<(Seq<char>, ToonV)>::empty(),
    };
    let f1 = match c.language {
        Option::Some(l) => seq![("language"@, ToonV::Text(l@))],
        Option::None => Seq::<(Seq<char>, ToonV)>::empty(),
    };
    let f2 = match c.framework {
        Option::Some(f) => seq![("framework"@, ToonV::Text(f@))],
        Option::None => Seq::<(Seq<char>, ToonV)>::empty(),
    };
    f0 + f1 + f2 + seq![("imports"@, ToonV::List(sp_imports_list(c)))] + seq![
        ("variables"@, ToonV::Object(sp_vars_fields(c))),
    ]
}

/// The structured form of a context.
pub open spec fn sp_ctx_toon(c: &InjectionContext) -> ToonV {
    ToonV::Object(sp_ctx_toon_fields(c))
}

} // verus!
