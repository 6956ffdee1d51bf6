//! Module metadata: the function descriptors and required variable
//! names embedded in a module's reserved custom sections.
//!
//! The reserved routing section holds records of function descriptors;
//! the reserved variables section holds records of variable names.  The
//! extractor walks the module's custom sections, decodes both through
//! the framing codec and the descriptor grammar, and checks that names
//! are unique — a duplicate is a hard load-time error, never silently
//! deduplicated.

use vstd::prelude::*;
use vstd::string::StringExecFns;

use crate::codec::FramingError;
use crate::codec::decode_records;
use crate::codec::spec_decode_records;
use crate::json::parse_functions_payload;
use crate::json::parse_vars_payload;
use crate::json::spec_parse_functions_payload;
use crate::json::spec_parse_vars_payload;

verus! {

/// An HTTP method a trigger may name.
#[derive(Clone, Copy, Debug, PartialEq, Eq, Structural)]
pub enum Method {
    /// The `GET` method.
    Get,
    /// The `HEAD` method.
    Head,
    /// The `POST` method.
    Post,
    /// The `PUT` method.
    Put,
    /// The `DELETE` method.
    Delete,
    /// The `CONNECT` method.
    Connect,
    /// The `OPTIONS` method.
    Options,
    /// The `TRACE` method.
    Trace,
    /// The `PATCH` method.
    Patch,
}

impl Method {
    /// The method's uppercase name.
    pub open spec fn spec_name(self) -> Seq<char> {
        match self {
            Method::Get => "GET"@,
            Method::Head => "HEAD"@,
            Method::Post => "POST"@,
            Method::Put => "PUT"@,
            Method::Delete => "DELETE"@,
            Method::Connect => "CONNECT"@,
            Method::Options => "OPTIONS"@,
            Method::Trace => "TRACE"@,
            Method::Patch => "PATCH"@,
        }
    }

    /// The method's uppercase name.
    pub fn as_ref(&self) -> (r: &'static str)
        ensures
            r@ == self.spec_name(),
    {
        match self {
            Method::Get => "GET",
            Method::Head => "HEAD",
            Method::Post => "POST",
            Method::Put => "PUT",
            Method::Delete => "DELETE",
            Method::Connect => "CONNECT",
            Method::Options => "OPTIONS",
            Method::Trace => "TRACE",
            Method::Patch => "PATCH",
        }
    }
}

/// The condition under which a function is invoked.
#[derive(Debug)]
pub enum FunctionTrigger {
    /// The function answers HTTP requests on a path; an empty method
    /// list means the path matches under any method.
    Http {
        /// The request path pattern that triggers the function.
        path: String,
        /// The request methods that trigger the function.
        methods: Vec<Method>,
    },
}

/// The mathematical value of a trigger.
pub struct TriggerView {
    /// The request path pattern.
    pub path: Seq<char>,
    /// The request methods.
    pub methods: Seq<Method>,
}

impl View for FunctionTrigger {
    type V = TriggerView;

    open spec fn view(&self) -> TriggerView {
        match self {
            FunctionTrigger::Http { path, methods } => TriggerView {
                path: path@,
                methods: methods@,
            },
        }
    }
}

/// An input a function declares.  No input kind is defined today: the
/// tag set is open-ended and fails closed, so the decoder never
/// produces a value of this type, and the encoder writes an empty
/// input list.
#[derive(Clone, Copy, Debug, PartialEq, Eq, Structural)]
#[non_exhaustive]
pub enum FunctionInput {
    /// Reserved for input kinds of later trigger families.
    Reserved,
}

/// An output a function declares.
#[derive(Clone, Copy, Debug, PartialEq, Eq, Structural)]
pub enum FunctionOutput {
    /// The function returns an HTTP response.
    Http,
}

/// One function descriptor of the routing metadata.
#[derive(Debug)]
pub struct Function {
    /// The function's name, unique within the module.
    pub name: String,
    /// The trigger under which the function is invoked.
    pub trigger: FunctionTrigger,
    /// The inputs the function declares.
    pub inputs: Vec<FunctionInput>,
    /// The outputs the function declares.
    pub outputs: Vec<FunctionOutput>,
}

/// The mathematical value of a function descriptor.
pub struct FunctionView {
    /// The function's name.
    pub name: Seq<char>,
    /// The trigger.
    pub trigger: TriggerView,
    /// The declared inputs.
    pub inputs: Seq<FunctionInput>,
    /// The declared outputs.
    pub outputs: Seq<FunctionOutput>,
}

impl View for Function {
    type V = FunctionView;

    open spec fn view(&self) -> FunctionView {
        FunctionView {
            name: self.name@,
            trigger: self.trigger@,
            inputs: self.inputs@,
            outputs: self.outputs@,
        }
    }
}

/// The mathematical value of a list of function descriptors.
pub open spec fn functions_view(s: Seq<Function>) -> Seq<FunctionView> {
    Seq::new(s.len(), |i: int| s[i]@)
}

/// The mathematical value of a list of names.
pub open spec fn strings_view(s: Seq<String>) -> Seq<Seq<char>> {
    Seq::new(s.len(), |i: int| s[i]@)
}

/// The routing and configuration metadata of one module.
#[derive(Debug)]
pub struct Metadata {
    /// The functions the module exposes, in declaration order.
    pub functions: Vec<Function>,
    /// The configuration variable names the module requires.
    pub vars: Vec<String>,
}

/// The mathematical value of a module's metadata.
pub struct MetadataView {
    /// The functions, in declaration order.
    pub functions: Seq<FunctionView>,
    /// The required variable names.
    pub vars: Seq<Seq<char>>,
}

impl View for Metadata {
    type V = MetadataView;

    open spec fn view(&self) -> MetadataView {
        MetadataView { functions: functions_view(self.functions@), vars: strings_view(self.vars@) }
    }
}

/// One named custom section of a module.
#[derive(Debug)]
pub struct Section {
    /// The section's name.
    pub name: String,
    /// The section's payload bytes.
    pub data: Vec<u8>,
}

impl View for Section {
    type V = (Seq<char>, Seq<u8>);

    open spec fn view(&self) -> (Seq<char>, Seq<u8>) {
        (self.name@, self.data@)
    }
}

/// The mathematical value of a list of sections.
pub open spec fn sections_view(s: Seq<Section>) -> Seq<(Seq<char>, Seq<u8>)> {
    Seq::new(s.len(), |i: int| s[i]@)
}

/// A failure to load metadata from a module.
#[derive(Debug)]
pub enum MetadataError {
    /// The module's binary structure could not be walked.
    InvalidModule,
    /// A record of a reserved section is malformed at the framing
    /// layer.
    Framing(crate::codec::FramingError),
    /// A record's text does not follow the descriptor grammar.
    InvalidDescriptor,
    /// Two function descriptors share this name.
    DuplicateFunction(String),
    /// Two declared variables share this name.
    DuplicateVariable(String),
}

/// The mathematical value of a metadata failure.
pub enum MetadataErrorView {
    /// The module's binary structure could not be walked.
    InvalidModule,
    /// A record is malformed at the framing layer.
    Framing(crate::codec::FramingError),
    /// A record's text does not follow the descriptor grammar.
    InvalidDescriptor,
    /// Two function descriptors share this name.
    DuplicateFunction(Seq<char>),
    /// Two declared variables share this name.
    DuplicateVariable(Seq<char>),
}

impl View for MetadataError {
    type V = MetadataErrorView;

    open spec fn view(&self) -> MetadataErrorView {
        match self {
            MetadataError::InvalidModule => MetadataErrorView::InvalidModule,
            MetadataError::Framing(e) => MetadataErrorView::Framing(*e),
            MetadataError::InvalidDescriptor => MetadataErrorView::InvalidDescriptor,
            MetadataError::DuplicateFunction(n) => MetadataErrorView::DuplicateFunction(n@),
            MetadataError::DuplicateVariable(n) => MetadataErrorView::DuplicateVariable(n@),
        }
    }
}

/// The function descriptors all records of one routing section hold,
/// in order, or the first error that makes the section malformed.
pub open spec fn spec_functions_of_payloads(ps: Seq<Seq<u8>>) -> Result<
    Seq<FunctionView>,
    MetadataErrorView,
>
    decreases ps.len(),
{
    if ps.len() == 0 {
        Ok(Seq::empty())
    } else {
        match spec_parse_functions_payload(ps[0]) {
            None => Err(MetadataErrorView::InvalidDescriptor),
            Some(fs) => match spec_functions_of_payloads(ps.skip(1)) {
                Ok(rest) => Ok(fs + rest),
                Err(e) => Err(e),
            },
        }
    }
}

/// The variable names all records of one variables section hold, in
/// order, or the first error that makes the section malformed.
pub open spec fn spec_vars_of_payloads(ps: Seq<Seq<u8>>) -> Result<Seq<Seq<char>>,
    MetadataErrorView,
>
    decreases ps.len(),
{
    if ps.len() == 0 {
        Ok(Seq::empty())
    } else {
        match spec_parse_vars_payload(ps[0]) {
            None => Err(MetadataErrorView::InvalidDescriptor),
            Some(vs) => match spec_vars_of_payloads(ps.skip(1)) {
                Ok(rest) => Ok(vs + rest),
                Err(e) => Err(e),
            },
        }
    }
}

/// One routing section's function descriptors: records through the
/// framing codec, then each payload through the descriptor grammar.
pub open spec fn spec_functions_of_section(data: Seq<u8>) -> Result<
    Seq<FunctionView>,
    MetadataErrorView,
> {
    match spec_decode_records(data) {
        Err(fe) => Err(MetadataErrorView::Framing(fe)),
        Ok(ps) => spec_functions_of_payloads(ps),
    }
}

/// One variables section's names: records through the framing codec,
/// then each payload through the descriptor grammar.
pub open spec fn spec_vars_of_section(data: Seq<u8>) -> Result<Seq<Seq<char>>,
    MetadataErrorView,
> {
    match spec_decode_records(data) {
        Err(fe) => Err(MetadataErrorView::Framing(fe)),
        Ok(ps) => spec_vars_of_payloads(ps),
    }
}

/// What a walk over the custom sections collects: the functions of
/// every routing section and the names of every variables section, in
/// section order, stopping at the first malformed section.  Sections
/// under other names are ignored entirely.
pub open spec fn spec_collect_sections(ss: Seq<(Seq<char>, Seq<u8>)>) -> Result<
    (Seq<FunctionView>, Seq<Seq<char>>),
    MetadataErrorView,
>
    decreases ss.len(),
{
    if ss.len() == 0 {
        Ok((Seq::empty(), Seq::empty()))
    } else if ss[0].0 == "__functions"@ {
        match spec_functions_of_section(ss[0].1) {
            Err(e) => Err(e),
            Ok(fs) => match spec_collect_sections(ss.skip(1)) {
                Ok((f2, v2)) => Ok((fs + f2, v2)),
                Err(e) => Err(e),
            },
        }
    } else if ss[0].0 == "__vars"@ {
        match spec_vars_of_section(ss[0].1) {
            Err(e) => Err(e),
            Ok(vs) => match spec_collect_sections(ss.skip(1)) {
                Ok((f2, v2)) => Ok((f2, vs + v2)),
                Err(e) => Err(e),
            },
        }
    } else {
        spec_collect_sections(ss.skip(1))
    }
}

/// The names of a list of function descriptors, in order.
pub open spec fn spec_fn_names(fs: Seq<FunctionView>) -> Seq<Seq<char>> {
    Seq::new(fs.len(), |i: int| fs[i].name)
}

/// The first name that repeats an earlier one, scanning left to right
/// from position `j`.
pub open spec fn spec_first_dup_from(names: Seq<Seq<char>>, j: int) -> Option<Seq<char>>
    decreases names.len() - j,
{
    if j < 0 || j >= names.len() {
        None
    } else if exists|i: int| 0 <= i < j && names[i] == names[j] {
        Some(names[j])
    } else {
        spec_first_dup_from(names, j + 1)
    }
}

/// The first name that repeats an earlier one, if any repeats.
pub open spec fn spec_first_dup(names: Seq<Seq<char>>) -> Option<Seq<char>> {
    spec_first_dup_from(names, 0)
}

/// What validation makes of the collected names: the metadata when
/// function names and variable names are each unique, else the first
/// duplicate, named.
pub open spec fn spec_validate(fs: Seq<FunctionView>, vs: Seq<Seq<char>>) -> Result<
    MetadataView,
    MetadataErrorView,
> {
    match spec_first_dup(spec_fn_names(fs)) {
        Some(n) => Err(MetadataErrorView::DuplicateFunction(n)),
        None => match spec_first_dup(vs) {
            Some(n) => Err(MetadataErrorView::DuplicateVariable(n)),
            None => Ok(MetadataView { functions: fs, vars: vs }),
        },
    }
}

/// The metadata a list of custom sections carries, or the first error:
/// collect the reserved sections in order, then check uniqueness.
pub open spec fn spec_metadata_of_sections(ss: Seq<(Seq<char>, Seq<u8>)>) -> Result<
    MetadataView,
    MetadataErrorView,
> {
    match spec_collect_sections(ss) {
        Err(e) => Err(e),
        Ok((fs, vs)) => spec_validate(fs, vs),
    }
}

/// Reads one routing section's function descriptors.
#[verifier::rlimit(100)]
fn functions_of_section(data: &[u8]) -> (r: Result<Vec<Function>, MetadataError>)
    ensures
        match r {
            Ok(fs) => spec_functions_of_section(data@) == Ok::<
                Seq<FunctionView>,
                MetadataErrorView,
            >(functions_view(fs@)),
            Err(e) => spec_functions_of_section(data@) == Err::<
                Seq<FunctionView>,
                MetadataErrorView,
            >(e@),
        },
{
    let payloads = match decode_records(data) {
        Ok(ps) => ps,
        Err(fe) => {
            return Err(MetadataError::Framing(fe));
        },
    };
    let ghost ps = payloads.deep_view();
    let mut acc: Vec<Function> = Vec::new();
    let mut i: usize = 0;
    proof {
        assert(ps.skip(0) =~= ps);
        if spec_functions_of_payloads(ps) is Ok {
            assert(functions_view(acc@) + spec_functions_of_payloads(ps)->Ok_0
                =~= spec_functions_of_payloads(ps)->Ok_0);
        }
    }
    while i < payloads.len()
        invariant
            i <= payloads@.len(),
            ps == payloads.deep_view(),
            spec_decode_records(data@) == Ok::<Seq<Seq<u8>>, FramingError>(ps),
            spec_functions_of_payloads(ps) == (match spec_functions_of_payloads(
                ps.skip(i as int),
            ) {
                Ok(rest) => Ok::<Seq<FunctionView>, MetadataErrorView>(
                    functions_view(acc@) + rest,
                ),
                Err(e) => Err::<Seq<FunctionView>, MetadataErrorView>(e),
            }),
        decreases payloads@.len() - i,
    {
        proof {
            assert(ps.skip(i as int)[0] == (payloads@[i as int]).deep_view());
            assert((payloads@[i as int]).deep_view() =~= (payloads@[i as int])@);
            assert(ps.skip(i as int).skip(1) =~= ps.skip(i as int + 1));
        }
        let mut fs = match parse_functions_payload(payloads[i].as_slice()) {
            Some(fs) => fs,
            None => {
                proof {
                    assert(spec_parse_functions_payload(ps.skip(i as int)[0]) is None);
                    assert(spec_functions_of_payloads(ps.skip(i as int)) == Err::<
                        Seq<FunctionView>,
                        MetadataErrorView,
                    >(MetadataErrorView::InvalidDescriptor));
                }
                return Err(MetadataError::InvalidDescriptor);
            },
        };
        let ghost old_acc = functions_view(acc@);
        let ghost fsv = functions_view(fs@);
        acc.append(&mut fs);
        proof {
            assert(functions_view(acc@) =~= old_acc + fsv);
            if spec_functions_of_payloads(ps.skip(i as int + 1)) is Ok {
                let rest = spec_functions_of_payloads(ps.skip(i as int + 1))->Ok_0;
                assert(old_acc + (fsv + rest) =~= functions_view(acc@) + rest);
            }
        }
        i += 1;
    }
    proof {
        assert(ps.skip(i as int) =~= Seq::<Seq<u8>>::empty());
        assert(functions_view(acc@) + Seq::<FunctionView>::empty() =~= functions_view(acc@));
    }
    Ok(acc)
}

/// Reads one variables section's names.
#[verifier::rlimit(100)]
fn vars_of_section(data: &[u8]) -> (r: Result<Vec<String>, MetadataError>)
    ensures
        match r {
            Ok(vs) => spec_vars_of_section(data@) == Ok::<Seq<Seq<char>>, MetadataErrorView>(
                strings_view(vs@),
            ),
            Err(e) => spec_vars_of_section(data@) == Err::<Seq<Seq<char>>, MetadataErrorView>(e@),
        },
{
    let payloads = match decode_records(data) {
        Ok(ps) => ps,
        Err(fe) => {
            return Err(MetadataError::Framing(fe));
        },
    };
    let ghost ps = payloads.deep_view();
    let mut acc: Vec<String> = Vec::new();
    let mut i: usize = 0;
    proof {
        assert(ps.skip(0) =~= ps);
        if spec_vars_of_payloads(ps) is Ok {
            assert(strings_view(acc@) + spec_vars_of_payloads(ps)->Ok_0 =~= spec_vars_of_payloads(
                ps,
            )->Ok_0);
        }
    }
    while i < payloads.len()
        invariant
            i <= payloads@.len(),
            ps == payloads.deep_view(),
            spec_decode_records(data@) == Ok::<Seq<Seq<u8>>, FramingError>(ps),
            spec_vars_of_payloads(ps) == (match spec_vars_of_payloads(ps.skip(i as int)) {
                Ok(rest) => Ok::<Seq<Seq<char>>, MetadataErrorView>(strings_view(acc@) + rest),
                Err(e) => Err::<Seq<Seq<char>>, MetadataErrorView>(e),
            }),
        decreases payloads@.len() - i,
    {
        proof {
            assert(ps.skip(i as int)[0] == (payloads@[i as int]).deep_view());
            assert((payloads@[i as int]).deep_view() =~= (payloads@[i as int])@);
            assert(ps.skip(i as int).skip(1) =~= ps.skip(i as int + 1));
        }
        let mut vs = match parse_vars_payload(payloads[i].as_slice()) {
            Some(vs) => vs,
            None => {
                proof {
                    assert(spec_parse_vars_payload(ps.skip(i as int)[0]) is None);
                    assert(spec_vars_of_payloads(ps.skip(i as int)) == Err::<
                        Seq<Seq<char>>,
                        MetadataErrorView,
                    >(MetadataErrorView::InvalidDescriptor));
                }
                return Err(MetadataError::InvalidDescriptor);
            },
        };
        let ghost old_acc = strings_view(acc@);
        let ghost vsv = strings_view(vs@);
        acc.append(&mut vs);
        proof {
            assert(strings_view(acc@) =~= old_acc + vsv);
            if spec_vars_of_payloads(ps.skip(i as int + 1)) is Ok {
                let rest = spec_vars_of_payloads(ps.skip(i as int + 1))->Ok_0;
                assert(old_acc + (vsv + rest) =~= strings_view(acc@) + rest);
            }
        }
        i += 1;
    }
    proof {
        assert(ps.skip(i as int) =~= Seq::<Seq<u8>>::empty());
        assert(strings_view(acc@) + Seq::<Seq<char>>::empty() =~= strings_view(acc@));
    }
    Ok(acc)
}

/// The first function name that repeats an earlier one.
fn first_dup_function(fs: &Vec<Function>) -> (r: Option<String>)
    ensures
        match r {
            Some(n) => spec_first_dup(spec_fn_names(functions_view(fs@))) == Some(n@),
            None => spec_first_dup(spec_fn_names(functions_view(fs@))) is None,
        },
{
    let ghost names = spec_fn_names(functions_view(fs@));
    let mut j: usize = 0;
    while j < fs.len()
        invariant
            j <= fs@.len(),
            names == spec_fn_names(functions_view(fs@)),
            spec_first_dup(names) == spec_first_dup_from(names, j as int),
        decreases fs@.len() - j,
    {
        let mut i: usize = 0;
        while i < j
            invariant
                i <= j < fs@.len(),
                names == spec_fn_names(functions_view(fs@)),
                spec_first_dup(names) == spec_first_dup_from(names, j as int),
                forall|k: int| 0 <= k < i ==> names[k] != names[j as int],
            decreases j - i,
        {
            proof {
                assert(functions_view(fs@)[i as int] == fs@[i as int]@);
                assert(functions_view(fs@)[j as int] == fs@[j as int]@);
                assert(names[i as int] == fs@[i as int].name@);
                assert(names[j as int] == fs@[j as int].name@);
            }
            if fs[i].name == fs[j].name {
                proof {
                    assert(names[i as int] == names[j as int]);
                    assert(spec_first_dup_from(names, j as int) == Some(names[j as int]));
                }
                return Some(fs[j].name.clone());
            }
            i += 1;
        }
        proof {
            assert(!exists|k: int| 0 <= k < j && names[k] == names[j as int]);
        }
        j += 1;
    }
    None
}

/// The first variable name that repeats an earlier one.
fn first_dup_string(vs: &Vec<String>) -> (r: Option<String>)
    ensures
        match r {
            Some(n) => spec_first_dup(strings_view(vs@)) == Some(n@),
            None => spec_first_dup(strings_view(vs@)) is None,
        },
{
    let ghost names = strings_view(vs@);
    let mut j: usize = 0;
    while j < vs.len()
        invariant
            j <= vs@.len(),
            names == strings_view(vs@),
            spec_first_dup(names) == spec_first_dup_from(names, j as int),
        decreases vs@.len() - j,
    {
        let mut i: usize = 0;
        while i < j
            invariant
                i <= j < vs@.len(),
                names == strings_view(vs@),
                spec_first_dup(names) == spec_first_dup_from(names, j as int),
                forall|k: int| 0 <= k < i ==> names[k] != names[j as int],
            decreases j - i,
        {
            proof {
                assert(names[i as int] == vs@[i as int]@);
                assert(names[j as int] == vs@[j as int]@);
            }
            if vs[i] == vs[j] {
                proof {
                    assert(names[i as int] == names[j as int]);
                    assert(spec_first_dup_from(names, j as int) == Some(names[j as int]));
                }
                return Some(vs[j].clone());
            }
            i += 1;
        }
        proof {
            assert(!exists|k: int| 0 <= k < j && names[k] == names[j as int]);
        }
        j += 1;
    }
    None
}

/// Builds the metadata a list of custom sections carries: decodes every
/// reserved section in order, then checks that function names and
/// variable names are each unique.
#[verifier::rlimit(100)]
#[verifier::spinoff_prover]
pub fn metadata_from_sections(sections: &Vec<Section>) -> (r: Result<Metadata, MetadataError>)
    ensures
        match r {
            Ok(m) => spec_metadata_of_sections(sections_view(sections@)) == Ok::<
                MetadataView,
                MetadataErrorView,
            >(m@),
            Err(e) => spec_metadata_of_sections(sections_view(sections@)) == Err::<
                MetadataView,
                MetadataErrorView,
            >(e@),
        },
{
    let ghost ss = sections_view(sections@);
    let functions_name: String = String::from_str("__functions");
    let vars_name: String = String::from_str("__vars");
    let mut functions: Vec<Function> = Vec::new();
    let mut vars: Vec<String> = Vec::new();
    let mut i: usize = 0;
    proof {
        assert(ss.skip(0) =~= ss);
        if spec_collect_sections(ss) is Ok {
            let pair = spec_collect_sections(ss)->Ok_0;
            assert(functions_view(functions@) + pair.0 =~= pair.0);
            assert(strings_view(vars@) + pair.1 =~= pair.1);
        }
    }
    while i < sections.len()
        invariant
            i <= sections@.len(),
            ss == sections_view(sections@),
            functions_name@ == "__functions"@,
            vars_name@ == "__vars"@,
            spec_collect_sections(ss) == (match spec_collect_sections(ss.skip(i as int)) {
                Ok((f2, v2)) => Ok::<(Seq<FunctionView>, Seq<Seq<char>>), MetadataErrorView>(
                    (functions_view(functions@) + f2, strings_view(vars@) + v2),
                ),
                Err(e) => Err::<(Seq<FunctionView>, Seq<Seq<char>>), MetadataErrorView>(e),
            }),
        decreases sections@.len() - i,
    {
        proof {
            assert(ss.skip(i as int)[0] == sections@[i as int]@);
            assert(ss.skip(i as int).skip(1) =~= ss.skip(i as int + 1));
        }
        if sections[i].name == functions_name {
            let mut fs = match functions_of_section(sections[i].data.as_slice()) {
                Ok(fs) => fs,
                Err(e) => {
                    return Err(e);
                },
            };
            let ghost old_f = functions_view(functions@);
            let ghost fsv = functions_view(fs@);
            functions.append(&mut fs);
            proof {
                assert(functions_view(functions@) =~= old_f + fsv);
                if spec_collect_sections(ss.skip(i as int + 1)) is Ok {
                    let pair = spec_collect_sections(ss.skip(i as int + 1))->Ok_0;
                    assert(old_f + (fsv + pair.0) =~= functions_view(functions@) + pair.0);
                }
            }
        } else if sections[i].name == vars_name {
            let mut vs = match vars_of_section(sections[i].data.as_slice()) {
                Ok(vs) => vs,
                Err(e) => {
                    return Err(e);
                },
            };
            let ghost old_v = strings_view(vars@);
            let ghost vsv = strings_view(vs@);
            vars.append(&mut vs);
            proof {
                assert(strings_view(vars@) =~= old_v + vsv);
                if spec_collect_sections(ss.skip(i as int + 1)) is Ok {
                    let pair = spec_collect_sections(ss.skip(i as int + 1))->Ok_0;
                    assert(old_v + (vsv + pair.1) =~= strings_view(vars@) + pair.1);
                }
            }
        }
        i += 1;
    }
    proof {
        assert(ss.skip(i as int) =~= Seq::<(Seq<char>, Seq<u8>)>::empty());
        assert(functions_view(functions@) + Seq::<FunctionView>::empty() =~= functions_view(
            functions@,
        ));
        assert(strings_view(vars@) + Seq::<Seq<char>>::empty() =~= strings_view(vars@));
    }
    match first_dup_function(&functions) {
        Some(n) => {
            return Err(MetadataError::DuplicateFunction(n));
        },
        None => {},
    }
    match first_dup_string(&vars) {
        Some(n) => {
            return Err(MetadataError::DuplicateVariable(n));
        },
        None => {},
    }
    Ok(Metadata { functions, vars })
}

/// What the module walk yields on given module bytes: the custom
/// sections in order, or nothing when the bytes are not a well-formed
/// module.  The walk is a fixed function of the bytes alone.
pub uninterp spec fn spec_custom_sections(bytes: Seq<u8>) -> Option<Seq<(Seq<char>, Seq<u8>)>>;

/// Relies on wasmparser's `Parser::parse_all`: walks the module's
/// binary structure payload by payload and yields each custom section's
/// name and contents in order, or an error for bytes that are not a
/// well-formed module.
#[verifier::external_body]
fn module_custom_sections(bytes: &[u8]) -> (r: Result<Vec<Section>, MetadataError>)
    ensures
        match r {
            Ok(ss) => spec_custom_sections(bytes@) == Some(sections_view(ss@)),
            Err(e) => spec_custom_sections(bytes@) is None && e@
                == MetadataErrorView::InvalidModule,
        },
{
    let mut out = Vec::new();
    for payload in wasmparser::Parser::new(0).parse_all(bytes) {
        match payload {
            Ok(wasmparser::Payload::CustomSection(s)) => {
                out.push(Section { name: s.name().to_string(), data: s.data().to_vec() });
            },
            Ok(_) => {},
            Err(_) => {
                return Err(MetadataError::InvalidModule);
            },
        }
    }
    Ok(out)
}

impl Metadata {
    /// Reads the metadata embedded in a module's bytes: walks the
    /// module's custom sections, decodes the reserved ones, and checks
    /// name uniqueness.  A module that declares no functions still
    /// yields its (empty) metadata; rejecting that is the dispatcher's
    /// concern, not the extractor's.
    pub fn from_module_bytes(bytes: &[u8]) -> (r: Result<Metadata, MetadataError>)
        ensures
            match spec_custom_sections(bytes@) {
                Some(ss) => match r {
                    Ok(m) => spec_metadata_of_sections(ss) == Ok::<
                        MetadataView,
                        MetadataErrorView,
                    >(m@),
                    Err(e) => spec_metadata_of_sections(ss) == Err::<
                        MetadataView,
                        MetadataErrorView,
                    >(e@),
                },
                None => r matches Err(e) && e@ == MetadataErrorView::InvalidModule,
            },
    {
        let sections = match module_custom_sections(bytes) {
            Ok(ss) => ss,
            Err(e) => {
                return Err(e);
            },
        };
        metadata_from_sections(&sections)
    }
}

/// Whether some name occurs twice in a list of names.
pub open spec fn spec_has_dup(names: Seq<Seq<char>>) -> bool {
    exists|i: int, j: int| 0 <= i < j < names.len() && names[i] == names[j]
}

/// The first-duplicate scan finds a duplicate exactly when one exists,
/// and what it finds is a repeated name.
proof fn lemma_first_dup_from_characterizes(names: Seq<Seq<char>>, k: int)
    requires
        0 <= k <= names.len(),
    ensures
        spec_first_dup_from(names, k) is None <==> (forall|i: int, j: int|
            0 <= i < j < names.len() && k <= j ==> (#[trigger] names[i]) != (
            #[trigger] names[j])),
        spec_first_dup_from(names, k) matches Some(n) ==> exists|i: int, j: int|
            0 <= i < j < names.len() && names[i] == names[j] && names[j] == n,
    decreases names.len() - k,
{
    if k < names.len() {
        lemma_first_dup_from_characterizes(names, k + 1);
        if exists|i: int| 0 <= i < k && names[i] == names[k] {
            let i = choose|i: int| 0 <= i < k && names[i] == names[k];
            assert(0 <= i < k < names.len() && names[i] == names[k]);
        } else {
            assert(spec_first_dup_from(names, k) == spec_first_dup_from(names, k + 1));
            if spec_first_dup_from(names, k) is None {
                assert forall|i: int, j: int|
                    0 <= i < j < names.len() && k <= j implies (#[trigger] names[i]) != (
                    #[trigger] names[j]) by {
                    if j == k {
                        assert(!(0 <= i < k && names[i] == names[k]));
                    }
                }
            }
        }
    }
}

/// Law: duplicates are refused, and only duplicates.  Metadata whose
/// function names repeat is refused with a duplicate-function error
/// naming a repeated name; likewise for variables once function names
/// are unique; and metadata whose function names and variable names
/// are each unique is accepted exactly as collected.
pub proof fn lemma_duplicate_names_refused(fs: Seq<FunctionView>, vs: Seq<Seq<char>>)
    ensures
        spec_has_dup(spec_fn_names(fs)) ==> (spec_validate(fs, vs) matches Err(e) && (
        e matches MetadataErrorView::DuplicateFunction(n) && exists|i: int, j: int|
            0 <= i < j < fs.len() && fs[i].name == fs[j].name && fs[j].name == n)),
        !spec_has_dup(spec_fn_names(fs)) && spec_has_dup(vs) ==> (spec_validate(fs, vs) matches Err(
            e,
        ) && (e matches MetadataErrorView::DuplicateVariable(n) && exists|i: int, j: int|
            0 <= i < j < vs.len() && vs[i] == vs[j] && vs[j] == n)),
        !spec_has_dup(spec_fn_names(fs)) && !spec_has_dup(vs) ==> spec_validate(fs, vs) == Ok::<
            MetadataView,
            MetadataErrorView,
        >(MetadataView { functions: fs, vars: vs }),
{
    let names = spec_fn_names(fs);
    lemma_first_dup_from_characterizes(names, 0);
    lemma_first_dup_from_characterizes(vs, 0);
    if spec_has_dup(names) {
        let (i, j) = choose|i: int, j: int| 0 <= i < j < names.len() && names[i] == names[j];
        assert(names[i] == names[j]);
        assert(!(spec_first_dup(names) is None));
        match spec_first_dup(names) {
            Some(n) => {
                let (i2, j2) = choose|i2: int, j2: int|
                    0 <= i2 < j2 < names.len() && names[i2] == names[j2] && names[j2] == n;
                assert(names[i2] == fs[i2].name && names[j2] == fs[j2].name);
                assert(fs[i2].name == fs[j2].name && fs[j2].name == n);
            },
            None => {},
        }
    } else {
        assert(spec_first_dup(names) is None) by {
            match spec_first_dup(names) {
                Some(n) => {
                    let (i2, j2) = choose|i2: int, j2: int|
                        0 <= i2 < j2 < names.len() && names[i2] == names[j2] && names[j2] == n;
                    assert(spec_has_dup(names));
                },
                None => {},
            }
        }
        if spec_has_dup(vs) {
            let (i, j) = choose|i: int, j: int| 0 <= i < j < vs.len() && vs[i] == vs[j];
            assert(vs[i] == vs[j]);
            assert(!(spec_first_dup(vs) is None));
        } else {
            assert(spec_first_dup(vs) is None) by {
                match spec_first_dup(vs) {
                    Some(n) => {
                        let (i2, j2) = choose|i2: int, j2: int|
                            0 <= i2 < j2 < vs.len() && vs[i2] == vs[j2] && vs[j2] == n;
                        assert(spec_has_dup(vs));
                    },
                    None => {},
                }
            }
        }
    }
}

} // verus!
