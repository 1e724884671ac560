//! The model of a C++ class read from a header, and the glue code rendered
//! from it.
use vstd::prelude::*;

use crate::params::{lemma_param_list_shape, param_list, parse_params};
use crate::text::{
    chars_of, concat, concat_strings, copy_range, has_prefix, join, join_pos, join_strings,
    each_after, lemma_concat_occurs, lemma_join_first, lemma_join_occurs, lemma_occurs_within,
    occurs_at, string_of,
    string_views, trim, trim_chars,
};

verus! {

/// A member function declared in a class: return type (with its qualifiers),
/// name, parameter list, what follows the parameter list, and the `///`
/// comment lines above it.
#[derive(Debug)]
pub struct ClsF {
    pub rtn: String,
    pub name: String,
    pub args: String,
    pub decl: String,
    pub comments: Vec<String>,
}

/// The contents of a `ClsF`.
pub struct ClsFView {
    pub rtn: Seq<char>,
    pub name: Seq<char>,
    pub args: Seq<char>,
    pub decl: Seq<char>,
    pub comments: Seq<Seq<char>>,
}

impl View for ClsF {
    type V = ClsFView;

    open spec fn view(&self) -> ClsFView {
        ClsFView {
            rtn: self.rtn@,
            name: self.name@,
            args: self.args@,
            decl: self.decl@,
            comments: string_views(self.comments@),
        }
    }
}

/// A class declared in a header: its name, its base classes (none are read)
/// and its member functions in order.
#[derive(Debug)]
pub struct ClsAst {
    pub name: String,
    pub parent: Vec<ClsAst>,
    pub funcs: Vec<ClsF>,
}

/// The contents of a `ClsAst`: its name, how many base classes it lists, and
/// its member functions.
pub struct ClsAstView {
    pub name: Seq<char>,
    pub parent_count: nat,
    pub funcs: Seq<ClsFView>,
}

impl View for ClsAst {
    type V = ClsAstView;

    open spec fn view(&self) -> ClsAstView {
        ClsAstView {
            name: self.name@,
            parent_count: self.parent@.len(),
            funcs: self.funcs@.map_values(|f: ClsF| f@),
        }
    }
}

/// Whether a return type, trimmed, starts with `virtual`.
pub open spec fn is_virtual(rtn: Seq<char>) -> bool {
    "virtual"@.is_prefix_of(trim(rtn))
}

/// The return type as rendered: trimmed, and without a leading `virtual`.
pub open spec fn return_type(rtn: Seq<char>) -> Seq<char> {
    if is_virtual(rtn) {
        trim(trim(rtn).skip("virtual"@.len() as int))
    } else {
        trim(rtn)
    }
}

/// Whether the parameter list of `f` reads.
pub open spec fn params_ok(f: ClsFView) -> bool {
    param_list(f.args) is Some
}

/// The parameter declarations of `f`.
pub open spec fn decls_of(f: ClsFView) -> Seq<Seq<char>> {
    param_list(f.args).unwrap().0
}

/// The parameter names of `f`.
pub open spec fn names_of(f: ClsFView) -> Seq<Seq<char>> {
    param_list(f.args).unwrap().1
}

/// `rtn name(decls);`: the declaration of `f` in the wrapper class.
pub open spec fn member_decl_text(f: ClsFView) -> Seq<char> {
    return_type(f.rtn) + " "@ + f.name + "("@ + join(decls_of(f), ", "@) + ");"@
}

/// `rtn cls::name(decls) { return m_member->name(names); }`: the definition
/// of `f` in the wrapper class `cls`, forwarding to the wrapped object.
pub open spec fn member_impl_text(f: ClsFView, cls: Seq<char>) -> Seq<char> {
    return_type(f.rtn) + " "@ + cls + "::"@ + f.name + "("@ + join(decls_of(f), ", "@)
        + ") { return m_member->"@ + f.name + "("@ + join(names_of(f), ", "@) + "); }"@
}

/// `cls_Trait_name`: the `extern "C"` function that the callback `name` of
/// the class `cls` forwards to.
pub open spec fn forward_fn_name(cls: Seq<char>, name: Seq<char>) -> Seq<char> {
    cls + "_Trait"@ + "_"@ + name
}

/// `rtn name(decls) override;`: the declaration of the callback `f` in the
/// forwarding subclass.
pub open spec fn forward_decl_text(f: ClsFView) -> Seq<char> {
    return_type(f.rtn) + " "@ + f.name + "("@ + join(decls_of(f), ", "@) + ") override;"@
}

/// `rtn cls::name(decls) { return cls_Trait_name(m_rust, names); }`: the
/// definition of the callback `f` in the forwarding subclass `cls`.
pub open spec fn forward_impl_text(f: ClsFView, cls: Seq<char>) -> Seq<char> {
    return_type(f.rtn) + " "@ + cls + "::"@ + f.name + "("@ + join(decls_of(f), ", "@)
        + ") { return "@ + forward_fn_name(cls, f.name) + "("@ + join(
        seq!["m_rust"@] + names_of(f),
        ", "@,
    ) + "); }"@
}

/// `extern "C" rtn cls_Trait_name(void *m_rust, decls);`: the declaration of
/// the function that the callback `f` of the subclass `cls` forwards to.
pub open spec fn forward_extern_text(f: ClsFView, cls: Seq<char>) -> Seq<char> {
    "extern \"C\" "@ + return_type(f.rtn) + " "@ + forward_fn_name(cls, f.name) + "("@ + join(
        seq!["void *m_rust"@] + decls_of(f),
        ", "@,
    ) + ");"@
}

/// The forwarding definition of a callback calls its `extern "C"` function
/// with `m_rust` followed by every declared parameter name, in order, and the
/// `extern "C"` declaration takes `void *m_rust` followed by every declared
/// parameter: the call passes one argument per parameter of the declaration.
pub proof fn lemma_forward_call_passes_every_parameter(f: ClsFView, cls: Seq<char>)
    requires
        params_ok(f),
    ensures
        names_of(f).len() == decls_of(f).len(),
        ("m_rust"@ + each_after(names_of(f), ", "@) + "); }"@).is_suffix_of(
            forward_impl_text(f, cls),
        ),
        ("void *m_rust"@ + each_after(decls_of(f), ", "@) + ");"@).is_suffix_of(
            forward_extern_text(f, cls),
        ),
{
    lemma_param_list_shape(f.args);
    lemma_join_first("m_rust"@, names_of(f), ", "@);
    lemma_join_first("void *m_rust"@, decls_of(f), ", "@);
    let a = "m_rust"@ + each_after(names_of(f), ", "@) + "); }"@;
    let pa = return_type(f.rtn) + " "@ + cls + "::"@ + f.name + "("@ + join(decls_of(f), ", "@)
        + ") { return "@ + forward_fn_name(cls, f.name) + "("@;
    assert(forward_impl_text(f, cls) =~= pa + a);
    let t = forward_impl_text(f, cls);
    assert(t.subrange(t.len() - a.len(), t.len() as int) =~= a);
    let b = "void *m_rust"@ + each_after(decls_of(f), ", "@) + ");"@;
    let pb = "extern \"C\" "@ + return_type(f.rtn) + " "@ + forward_fn_name(cls, f.name) + "("@;
    assert(forward_extern_text(f, cls) =~= pb + b);
    let e = forward_extern_text(f, cls);
    assert(e.subrange(e.len() - b.len(), e.len() as int) =~= b);
}

impl ClsF {
    /// A member function with the given parts; the comment lines are copied.
    pub fn new(rtn: String, name: String, args: String, decl: String, comments: Vec<&str>) -> (r:
        Self)
        ensures
            r@ == (ClsFView {
                rtn: rtn@,
                name: name@,
                args: args@,
                decl: decl@,
                comments: comments@.map_values(|s: &str| s@),
            }),
    {
        let mut owned: Vec<String> = Vec::new();
        let n = comments.len();
        let mut i: usize = 0;
        while i < n
            invariant
                i <= n,
                n == comments@.len(),
                string_views(owned@) =~= comments@.take(i as int).map_values(|s: &str| s@),
            decreases n - i,
        {
            let ghost before = string_views(owned@);
            owned.push(comments[i].to_owned());
            assert(string_views(owned@) =~= before.push(comments@[i as int]@));
            assert(comments@.take(i + 1).map_values(|s: &str| s@) =~= comments@.take(
                i as int,
            ).map_values(|s: &str| s@).push(comments@[i as int]@));
            i = i + 1;
        }
        assert(comments@.take(n as int) =~= comments@);
        ClsF { rtn, name, args, decl, comments: owned }
    }

    /// The return type as rendered, and whether it was declared `virtual`.
    fn rendered_return(&self) -> (r: (String, bool))
        ensures
            r.0@ == return_type(self.rtn@),
            r.1 == is_virtual(self.rtn@),
    {
        let t = trim_chars(&chars_of(self.rtn.as_str()));
        if has_prefix(&t, "virtual") {
            let m = "virtual".unicode_len();
            let rest = trim_chars(&copy_range(&t, m, t.len()));
            assert(t@.subrange(m as int, t@.len() as int) =~= t@.skip("virtual"@.len() as int));
            (string_of(&rest), true)
        } else {
            (string_of(&t), false)
        }
    }

    /// The declaration and the definition of this function in the wrapper
    /// class `cls_name`, whose definition calls the same function of the
    /// wrapped object `m_member`.
    pub fn member_to_rust(self, cls_name: &str) -> (r: (String, String))
        requires
            params_ok(self@),
        ensures
            r.0@ == member_decl_text(self@),
            r.1@ == member_impl_text(self@, cls_name@),
    {
        let (rtn, _) = self.rendered_return();
        let params = parse_params(self.args.as_str());
        let (decls, names) = match params {
            Some(p) => p,
            None => {
                proof {
                    assert(false);
                }
                (Vec::new(), Vec::new())
            },
        };
        let decls_text = join_strings(&decls, ", ");
        let names_text = join_strings(&names, ", ");
        let mut cdef = rtn.clone();
        cdef.append(" ");
        cdef.append(self.name.as_str());
        cdef.append("(");
        cdef.append(decls_text.as_str());
        cdef.append(");");
        let mut cimpl = rtn;
        cimpl.append(" ");
        cimpl.append(cls_name);
        cimpl.append("::");
        cimpl.append(self.name.as_str());
        cimpl.append("(");
        cimpl.append(decls_text.as_str());
        cimpl.append(") { return m_member->");
        cimpl.append(self.name.as_str());
        cimpl.append("(");
        cimpl.append(names_text.as_str());
        cimpl.append("); }");
        (cdef, cimpl)
    }

    /// For a virtual function (a callback), its declaration and definition in
    /// the forwarding subclass `cls_name`, and the declaration of the
    /// `extern "C"` function that the definition calls with `m_rust` first;
    /// `None` for a function that is not virtual.
    pub fn forward_to_rust(self, cls_name: &str) -> (r: Option<(String, String, String)>)
        requires
            is_virtual(self@.rtn) ==> params_ok(self@),
        ensures
            r is Some <==> is_virtual(self@.rtn),
            r matches Some(t) ==> {
                &&& t.0@ == forward_decl_text(self@)
                &&& t.1@ == forward_impl_text(self@, cls_name@)
                &&& t.2@ == forward_extern_text(self@, cls_name@)
            },
    {
        let (rtn, virt) = self.rendered_return();
        if !virt {
            return None;
        }
        let params = parse_params(self.args.as_str());
        let (decls, names) = match params {
            Some(p) => p,
            None => {
                proof {
                    assert(false);
                }
                (Vec::new(), Vec::new())
            },
        };
        let decls_text = join_strings(&decls, ", ");
        let mut all_names: Vec<String> = Vec::new();
        all_names.push(String::from_str("m_rust"));
        let mut i: usize = 0;
        while i < names.len()
            invariant
                i <= names@.len(),
                string_views(all_names@) =~= seq!["m_rust"@] + string_views(names@).take(
                    i as int,
                ),
            decreases names@.len() - i,
        {
            let ghost before = string_views(all_names@);
            all_names.push(names[i].clone());
            assert(string_views(all_names@) =~= before.push(names@[i as int]@));
            assert(string_views(names@).take(i + 1) =~= string_views(names@).take(i as int).push(
                names@[i as int]@,
            ));
            i = i + 1;
        }
        assert(string_views(names@).take(names@.len() as int) =~= string_views(names@));
        let mut all_decls: Vec<String> = Vec::new();
        all_decls.push(String::from_str("void *m_rust"));
        let mut i: usize = 0;
        while i < decls.len()
            invariant
                i <= decls@.len(),
                string_views(all_decls@) =~= seq!["void *m_rust"@] + string_views(decls@).take(
                    i as int,
                ),
            decreases decls@.len() - i,
        {
            let ghost before = string_views(all_decls@);
            all_decls.push(decls[i].clone());
            assert(string_views(all_decls@) =~= before.push(decls@[i as int]@));
            assert(string_views(decls@).take(i + 1) =~= string_views(decls@).take(i as int).push(
                decls@[i as int]@,
            ));
            i = i + 1;
        }
        assert(string_views(decls@).take(decls@.len() as int) =~= string_views(decls@));
        let names_text = join_strings(&all_names, ", ");
        let extern_decls_text = join_strings(&all_decls, ", ");
        let mut forward_fn = String::from_str(cls_name);
        forward_fn.append("_Trait");
        forward_fn.append("_");
        forward_fn.append(self.name.as_str());

        let mut cdef = rtn.clone();
        cdef.append(" ");
        cdef.append(self.name.as_str());
        cdef.append("(");
        cdef.append(decls_text.as_str());
        cdef.append(") override;");

        let mut cimpl = rtn.clone();
        cimpl.append(" ");
        cimpl.append(cls_name);
        cimpl.append("::");
        cimpl.append(self.name.as_str());
        cimpl.append("(");
        cimpl.append(decls_text.as_str());
        cimpl.append(") { return ");
        cimpl.append(forward_fn.as_str());
        cimpl.append("(");
        cimpl.append(names_text.as_str());
        cimpl.append("); }");

        let mut externc = String::from_str("extern \"C\" ");
        externc.append(rtn.as_str());
        externc.append(" ");
        externc.append(forward_fn.as_str());
        externc.append("(");
        externc.append(extern_decls_text.as_str());
        externc.append(");");
        Some((cdef, cimpl, externc))
    }
}


/// `Rust_name`: the name of the class generated for the class `name`.
pub open spec fn wrapper_name(name: Seq<char>) -> Seq<char> {
    "Rust_"@ + name
}

/// The member declarations of the wrapper class, one indented line each.
pub open spec fn member_decl_lines(funcs: Seq<ClsFView>) -> Seq<Seq<char>> {
    funcs.map_values(|f: ClsFView| "        "@ + member_decl_text(f) + "\n"@)
}

/// The member definitions of the wrapper class `cls`.
pub open spec fn member_impls(funcs: Seq<ClsFView>, cls: Seq<char>) -> Seq<Seq<char>> {
    funcs.map_values(|f: ClsFView| member_impl_text(f, cls))
}

/// The declaration of the wrapper class of the API class `c`: it holds a
/// pointer `m_member` to the wrapped object and declares every member function.
pub open spec fn api_class_decl(c: ClsAstView) -> Seq<char> {
    let rn = wrapper_name(c.name);
    "\nclass "@ + rn + " {\n    public:\n        "@ + c.name + " *m_member;\n        "@ + rn + "("@
        + c.name + " *member);\n        ~"@ + rn + "();\n"@ + concat(member_decl_lines(c.funcs))
        + "\n};\n"@
}

/// The definitions of the wrapper class of `c`, one per line: every member
/// function, then the constructor, then the destructor, which deletes the
/// wrapped object only where `owned`.
pub open spec fn api_class_impl(c: ClsAstView, owned: bool) -> Seq<char> {
    let rn = wrapper_name(c.name);
    let ctor = rn + "::"@ + rn + "("@ + c.name + " *member) : m_member(member) {  };"@;
    let des = if owned {
        "delete m_member;"@
    } else {
        ""@
    };
    let dtor = rn + "::~"@ + rn + "() { "@ + des + " };"@;
    "\n"@ + join(member_impls(c.funcs, rn).push(ctor).push(dtor), "\n"@) + "\n"@
}

/// The virtual member functions among `funcs`, in order.
pub open spec fn virtual_funcs(funcs: Seq<ClsFView>) -> Seq<ClsFView>
    decreases funcs.len(),
{
    if funcs.len() == 0 {
        Seq::<ClsFView>::empty()
    } else if is_virtual(funcs.last().rtn) {
        virtual_funcs(funcs.drop_last()).push(funcs.last())
    } else {
        virtual_funcs(funcs.drop_last())
    }
}

/// The forwarding subclass overrides exactly the virtual member functions:
/// each function it keeps is virtual and a member function of the class, and
/// each virtual member function is kept.
pub proof fn lemma_virtual_funcs(funcs: Seq<ClsFView>)
    ensures
        forall|i: int|
            0 <= i < virtual_funcs(funcs).len() ==> is_virtual(#[trigger] virtual_funcs(funcs)[i].rtn)
                && funcs.contains(virtual_funcs(funcs)[i]),
        forall|j: int|
            0 <= j < funcs.len() && is_virtual(#[trigger] funcs[j].rtn) ==> virtual_funcs(
                funcs,
            ).contains(funcs[j]),
        virtual_funcs(funcs).len() <= funcs.len(),
    decreases funcs.len(),
{
    if funcs.len() > 0 {
        let init = funcs.drop_last();
        lemma_virtual_funcs(init);
        let v = virtual_funcs(funcs);
        let v0 = virtual_funcs(init);
        assert forall|i: int| 0 <= i < v.len() implies is_virtual(#[trigger] v[i].rtn)
            && funcs.contains(v[i]) by {
            if i < v0.len() {
                assert(v[i] == v0[i]);
                assert(0 <= i < virtual_funcs(init).len());
                assert(is_virtual(virtual_funcs(init)[i].rtn));
                assert(init.contains(v0[i]));
                let k = choose|k: int| 0 <= k < init.len() && init[k] == v0[i];
                assert(funcs[k] == init[k]);
            } else {
                assert(v[i] == funcs.last());
                assert(funcs[funcs.len() - 1] == funcs.last());
            }
        }
        assert forall|j: int| 0 <= j < funcs.len() && is_virtual(#[trigger] funcs[j].rtn) implies v.contains(
            funcs[j],
        ) by {
            if j < funcs.len() - 1 {
                assert(init[j] == funcs[j]);
                assert(is_virtual(init[j].rtn));
                assert(v0.contains(init[j]));
                let k = choose|k: int| 0 <= k < v0.len() && v0[k] == init[j];
                assert(v[k] == v0[k]);
            } else {
                assert(v[v.len() - 1] == funcs[j]);
            }
        }
    }
}

/// The wrapper of an API class declares and defines one function per member
/// function, in the same order.
pub proof fn lemma_member_lines(funcs: Seq<ClsFView>, cls: Seq<char>)
    ensures
        member_decl_lines(funcs).len() == funcs.len(),
        member_impls(funcs, cls).len() == funcs.len(),
        forall|i: int|
            0 <= i < funcs.len() ==> #[trigger] member_decl_lines(funcs)[i] == "        "@
                + member_decl_text(funcs[i]) + "\n"@ && member_impls(funcs, cls)[i]
                == member_impl_text(funcs[i], cls),
{
}

/// Inserting a function that is not virtual anywhere among `funcs` leaves the
/// virtual functions as they were.
proof fn lemma_virtual_funcs_insert_plain(funcs: Seq<ClsFView>, i: int, f: ClsFView)
    requires
        0 <= i <= funcs.len(),
        !is_virtual(f.rtn),
    ensures
        virtual_funcs(funcs.insert(i, f)) == virtual_funcs(funcs),
    decreases funcs.len(),
{
    let g = funcs.insert(i, f);
    if i == funcs.len() {
        assert(g.drop_last() =~= funcs);
    } else {
        lemma_virtual_funcs_insert_plain(funcs.drop_last(), i, f);
        assert(g.drop_last() =~= funcs.drop_last().insert(i, f));
        assert(g.last() == funcs.last());
    }
}

/// Whether every virtual function of a class has a parameter list that reads
/// depends on its virtual functions alone.
proof fn lemma_virtual_params_ok_by_virtual_funcs(c: ClsAstView)
    ensures
        virtual_params_ok(c) <==> forall|k: int|
            0 <= k < virtual_funcs(c.funcs).len() ==> #[trigger] params_ok(
                virtual_funcs(c.funcs)[k],
            ),
{
    lemma_virtual_funcs(c.funcs);
    let vf = virtual_funcs(c.funcs);
    if virtual_params_ok(c) {
        assert forall|k: int| 0 <= k < vf.len() implies #[trigger] params_ok(vf[k]) by {
            assert(is_virtual(vf[k].rtn) && c.funcs.contains(vf[k]));
            let j = choose|j: int| 0 <= j < c.funcs.len() && c.funcs[j] == vf[k];
            assert(params_ok(c.funcs[j]));
        }
    }
    if forall|k: int| 0 <= k < vf.len() ==> #[trigger] params_ok(vf[k]) {
        assert forall|j: int| 0 <= j < c.funcs.len() && is_virtual(c.funcs[j].rtn) implies #[trigger] params_ok(
            c.funcs[j],
        ) by {
            assert(vf.contains(c.funcs[j]));
            let k = choose|k: int| 0 <= k < vf.len() && vf[k] == c.funcs[j];
            assert(params_ok(vf[k]));
        }
    }
}

/// Adding a member function that is not virtual, anywhere in a callback
/// class, changes nothing of its forwarding subclass: the rendered declaration
/// and definitions stay the same, and so does whether they can be rendered
/// (the parameter list of the added function is never read).
pub proof fn lemma_forward_ignores_plain(c: ClsAstView, i: int, f: ClsFView)
    requires
        0 <= i <= c.funcs.len(),
        !is_virtual(f.rtn),
    ensures
        ({
            let c2 = ClsAstView { funcs: c.funcs.insert(i, f), ..c };
            &&& virtual_params_ok(c2) == virtual_params_ok(c)
            &&& spi_class_decl(c2) == spi_class_decl(c)
            &&& spi_class_impl(c2) == spi_class_impl(c)
        }),
{
    let c2 = ClsAstView { funcs: c.funcs.insert(i, f), ..c };
    lemma_virtual_funcs_insert_plain(c.funcs, i, f);
    lemma_virtual_params_ok_by_virtual_funcs(c);
    lemma_virtual_params_ok_by_virtual_funcs(c2);
    assert(c2.name == c.name);
    assert(virtual_funcs(c2.funcs) == virtual_funcs(c.funcs));
}

/// The callback declarations of the forwarding subclass, one indented line each.
pub open spec fn forward_decl_lines(funcs: Seq<ClsFView>) -> Seq<Seq<char>> {
    funcs.map_values(|f: ClsFView| "        "@ + forward_decl_text(f) + "\n"@)
}

/// The callback definitions of the forwarding subclass `cls`.
pub open spec fn forward_impls(funcs: Seq<ClsFView>, cls: Seq<char>) -> Seq<Seq<char>> {
    funcs.map_values(|f: ClsFView| forward_impl_text(f, cls))
}

/// The `extern "C"` declarations that the callbacks of `cls` forward to.
pub open spec fn forward_externs(funcs: Seq<ClsFView>, cls: Seq<char>) -> Seq<Seq<char>> {
    funcs.map_values(|f: ClsFView| forward_extern_text(f, cls))
}

/// The declaration of the subclass of the callback class `c`: it holds the
/// Rust object `m_rust`, overrides every virtual function, and is followed by
/// the `extern "C"` functions those forward to and the one that drops `m_rust`.
pub open spec fn spi_class_decl(c: ClsAstView) -> Seq<char> {
    let rn = wrapper_name(c.name);
    let vf = virtual_funcs(c.funcs);
    "\nclass "@ + rn + " : "@ + c.name + " {\n    public:\n        void *m_rust;\n        "@ + rn
        + "(void *rust);\n        ~"@ + rn + "();\n"@ + concat(forward_decl_lines(vf)) + "\n};\n"@
        + join(forward_externs(vf, rn), "\n"@) + "\nextern \"C\" void "@ + rn
        + "_Trait_Drop(void* m_rust);\n"@
}

/// The definitions of the subclass of `c`: every overriding callback, then
/// the constructor, and the destructor, which hands `m_rust` back to Rust.
pub open spec fn spi_class_impl(c: ClsAstView) -> Seq<char> {
    let rn = wrapper_name(c.name);
    let vf = virtual_funcs(c.funcs);
    "\n\n"@ + join(forward_impls(vf, rn), "\n"@) + "\n"@ + rn + "::"@ + rn
        + "(void *rust) : m_rust(rust) {}\n"@ + rn + "::~"@ + rn + "() { "@ + rn
        + "_Trait_Drop(m_rust); }\n"@
}

/// Whether every member function of `c` has a parameter list that reads.
pub open spec fn all_params_ok(c: ClsAstView) -> bool {
    forall|i: int| 0 <= i < c.funcs.len() ==> #[trigger] params_ok(c.funcs[i])
}

/// Whether every virtual member function of `c` has a parameter list that reads.
pub open spec fn virtual_params_ok(c: ClsAstView) -> bool {
    forall|i: int| 0 <= i < c.funcs.len() && is_virtual(c.funcs[i].rtn) ==> #[trigger] params_ok(
        c.funcs[i],
    )
}

/// `parts[j]` stands in `text` at `ps[j]` for every `j`, and each part ends no
/// later than every later part starts.
pub open spec fn parts_in_order(text: Seq<char>, parts: Seq<Seq<char>>, ps: Seq<int>) -> bool {
    &&& ps.len() == parts.len()
    &&& forall|j: int| 0 <= j < parts.len() ==> occurs_at(text, parts[j], #[trigger] ps[j])
    &&& forall|j: int, k: int|
        0 <= j < k < parts.len() ==> #[trigger] ps[j] + parts[j].len() <= #[trigger] ps[k]
}

/// For every virtual function `funcs[j]`, `parts[j]` stands in `text` at
/// `ps[j]`, and ends no later than the part of any later virtual function starts.
pub open spec fn virtual_parts_in_order(
    text: Seq<char>,
    funcs: Seq<ClsFView>,
    parts: Seq<Seq<char>>,
    ps: Seq<int>,
) -> bool {
    &&& ps.len() == funcs.len()
    &&& parts.len() == funcs.len()
    &&& forall|j: int|
        0 <= j < funcs.len() && is_virtual(funcs[j].rtn) ==> occurs_at(
            text,
            parts[j],
            #[trigger] ps[j],
        )
    &&& forall|j: int, k: int|
        0 <= j < k < funcs.len() && is_virtual(funcs[j].rtn) && is_virtual(funcs[k].rtn)
            ==> #[trigger] ps[j] + parts[j].len() <= #[trigger] ps[k]
}

/// The wrapper of an API class declares every member function, one line each,
/// in the order of the class, and defines every member function in that order.
pub proof fn lemma_api_class_lists_every_member(c: ClsAstView, owned: bool)
    ensures
        member_decl_lines(c.funcs).len() == c.funcs.len(),
        member_impls(c.funcs, wrapper_name(c.name)).len() == c.funcs.len(),
        forall|j: int|
            0 <= j < c.funcs.len() ==> #[trigger] member_decl_lines(c.funcs)[j] == "        "@
                + member_decl_text(c.funcs[j]) + "\n"@ && member_impls(
                c.funcs,
                wrapper_name(c.name),
            )[j] == member_impl_text(c.funcs[j], wrapper_name(c.name)),
        exists|ps: Seq<int>| #[trigger]
            parts_in_order(api_class_decl(c), member_decl_lines(c.funcs), ps),
        exists|ps: Seq<int>| #[trigger]
            parts_in_order(
                api_class_impl(c, owned),
                member_impls(c.funcs, wrapper_name(c.name)),
                ps,
            ),
{
    let rn = wrapper_name(c.name);
    let lines = member_decl_lines(c.funcs);
    let n = c.funcs.len() as int;
    let pre = "\nclass "@ + rn + " {\n    public:\n        "@ + c.name + " *m_member;\n        "@ + rn
        + "("@ + c.name + " *member);\n        ~"@ + rn + "();\n"@;
    let post = "\n};\n"@;
    assert(api_class_decl(c) == pre + concat(lines) + post);
    let ps = Seq::new(n as nat, |j: int| (pre.len() + concat(lines.take(j)).len()) as int);
    assert forall|j: int| 0 <= j < lines.len() implies occurs_at(
        api_class_decl(c),
        lines[j],
        #[trigger] ps[j],
    ) by {
        lemma_concat_occurs(lines, j, n);
        lemma_occurs_within(pre, concat(lines), post, lines[j], concat(lines.take(j)).len() as int);
    }
    assert forall|j: int, k: int| 0 <= j < k < lines.len() implies #[trigger] ps[j]
        + lines[j].len() <= #[trigger] ps[k] by {
        lemma_concat_occurs(lines, j, k);
    }
    assert(parts_in_order(api_class_decl(c), lines, ps));

    let impls = member_impls(c.funcs, rn);
    let ctor = rn + "::"@ + rn + "("@ + c.name + " *member) : m_member(member) {  };"@;
    let des = if owned {
        "delete m_member;"@
    } else {
        ""@
    };
    let dtor = rn + "::~"@ + rn + "() { "@ + des + " };"@;
    let all = impls.push(ctor).push(dtor);
    let sep = "\n"@;
    assert(api_class_impl(c, owned) == sep + join(all, sep) + sep);
    let qs = Seq::new(n as nat, |j: int| sep.len() + join_pos(all, sep, j));
    assert forall|j: int| 0 <= j < impls.len() implies occurs_at(
        api_class_impl(c, owned),
        impls[j],
        #[trigger] qs[j],
    ) by {
        assert(all[j] == impls[j]);
        lemma_join_occurs(all, sep, j, all.len() as int);
        lemma_occurs_within(sep, join(all, sep), sep, impls[j], join_pos(all, sep, j));
    }
    assert forall|j: int, k: int| 0 <= j < k < impls.len() implies #[trigger] qs[j]
        + impls[j].len() <= #[trigger] qs[k] by {
        assert(all[j] == impls[j]);
        lemma_join_occurs(all, sep, j, k);
    }
    assert(parts_in_order(api_class_impl(c, owned), impls, qs));
}

/// How many virtual functions stand before index `j`.
pub open spec fn virtual_before(funcs: Seq<ClsFView>, j: int) -> int {
    virtual_funcs(funcs.take(j)).len() as int
}

proof fn lemma_virtual_funcs_take_prefix(funcs: Seq<ClsFView>, a: int, b: int)
    requires
        0 <= a <= b <= funcs.len(),
    ensures
        virtual_funcs(funcs.take(a)).is_prefix_of(virtual_funcs(funcs.take(b))),
    decreases b - a,
{
    if a < b {
        lemma_virtual_funcs_take_prefix(funcs, a, b - 1);
        assert(funcs.take(b).drop_last() =~= funcs.take(b - 1));
        assert(funcs.take(b).last() == funcs[b - 1]);
    }
}

/// The virtual function `funcs[j]` is the one of index `virtual_before(funcs, j)`
/// among the virtual functions, and those indices grow with `j`.
proof fn lemma_virtual_index(funcs: Seq<ClsFView>, j: int, k: int)
    requires
        0 <= j < funcs.len(),
        is_virtual(funcs[j].rtn),
        j < k <= funcs.len(),
    ensures
        virtual_before(funcs, j) < virtual_funcs(funcs).len(),
        virtual_funcs(funcs)[virtual_before(funcs, j)] == funcs[j],
        virtual_before(funcs, j) < virtual_before(funcs, k),
{
    assert(funcs.take(j + 1).drop_last() =~= funcs.take(j));
    assert(funcs.take(j + 1).last() == funcs[j]);
    let m = virtual_before(funcs, j);
    assert(virtual_funcs(funcs.take(j + 1)) == virtual_funcs(funcs.take(j)).push(funcs[j]));
    lemma_virtual_funcs_take_prefix(funcs, j + 1, funcs.len() as int);
    assert(funcs.take(funcs.len() as int) =~= funcs);
    assert(virtual_funcs(funcs.take(j + 1))[m] == virtual_funcs(funcs)[m]);
    lemma_virtual_funcs_take_prefix(funcs, j + 1, k);
}

/// Parts laid out one after another for the virtual functions of `fs` (the
/// virtual function `fs[j]` having `all[j]`) stand in `text` in that order.
proof fn lemma_virtual_concat_in_order(
    text: Seq<char>,
    pre: Seq<char>,
    post: Seq<char>,
    fs: Seq<ClsFView>,
    vparts: Seq<Seq<char>>,
    all: Seq<Seq<char>>,
)
    requires
        text == pre + concat(vparts) + post,
        vparts.len() == virtual_funcs(fs).len(),
        all.len() == fs.len(),
        forall|j: int|
            0 <= j < fs.len() && is_virtual(fs[j].rtn) ==> vparts[virtual_before(fs, j)]
                == #[trigger] all[j],
    ensures
        exists|ps: Seq<int>| #[trigger] virtual_parts_in_order(text, fs, all, ps),
{
    let n = fs.len() as int;
    let ps = Seq::new(
        n as nat,
        |j: int| (pre.len() + concat(vparts.take(virtual_before(fs, j))).len()) as int,
    );
    assert forall|j: int| 0 <= j < n && is_virtual(fs[j].rtn) implies occurs_at(
        text,
        all[j],
        #[trigger] ps[j],
    ) by {
        lemma_virtual_index(fs, j, n);
        let m = virtual_before(fs, j);
        assert(vparts[m] == all[j]);
        lemma_concat_occurs(vparts, m, vparts.len() as int);
        lemma_occurs_within(pre, concat(vparts), post, vparts[m], concat(vparts.take(m)).len() as int);
    }
    assert forall|j: int, k: int|
        0 <= j < k < n && is_virtual(fs[j].rtn) && is_virtual(fs[k].rtn) implies #[trigger] ps[j]
        + all[j].len() <= #[trigger] ps[k] by {
        lemma_virtual_index(fs, j, k);
        lemma_virtual_index(fs, k, n);
        assert(vparts[virtual_before(fs, j)] == all[j]);
        lemma_concat_occurs(vparts, virtual_before(fs, j), virtual_before(fs, k));
    }
    assert(virtual_parts_in_order(text, fs, all, ps));
}

/// Parts joined with `sep` for the virtual functions of `fs` (the virtual
/// function `fs[j]` having `all[j]`) stand in `text` in that order.
proof fn lemma_virtual_join_in_order(
    text: Seq<char>,
    pre: Seq<char>,
    sep: Seq<char>,
    post: Seq<char>,
    fs: Seq<ClsFView>,
    vparts: Seq<Seq<char>>,
    all: Seq<Seq<char>>,
)
    requires
        text == pre + join(vparts, sep) + post,
        vparts.len() == virtual_funcs(fs).len(),
        all.len() == fs.len(),
        forall|j: int|
            0 <= j < fs.len() && is_virtual(fs[j].rtn) ==> vparts[virtual_before(fs, j)]
                == #[trigger] all[j],
    ensures
        exists|ps: Seq<int>| #[trigger] virtual_parts_in_order(text, fs, all, ps),
{
    let n = fs.len() as int;
    let ps = Seq::new(n as nat, |j: int| pre.len() + join_pos(vparts, sep, virtual_before(fs, j)));
    assert forall|j: int| 0 <= j < n && is_virtual(fs[j].rtn) implies occurs_at(
        text,
        all[j],
        #[trigger] ps[j],
    ) by {
        lemma_virtual_index(fs, j, n);
        let m = virtual_before(fs, j);
        assert(vparts[m] == all[j]);
        lemma_join_occurs(vparts, sep, m, vparts.len() as int);
        lemma_occurs_within(pre, join(vparts, sep), post, vparts[m], join_pos(vparts, sep, m));
    }
    assert forall|j: int, k: int|
        0 <= j < k < n && is_virtual(fs[j].rtn) && is_virtual(fs[k].rtn) implies #[trigger] ps[j]
        + all[j].len() <= #[trigger] ps[k] by {
        lemma_virtual_index(fs, j, k);
        lemma_virtual_index(fs, k, n);
        assert(vparts[virtual_before(fs, j)] == all[j]);
        lemma_join_occurs(vparts, sep, virtual_before(fs, j), virtual_before(fs, k));
    }
    assert(virtual_parts_in_order(text, fs, all, ps));
}

/// The forwarding subclass of a callback class declares an override and an
/// `extern "C"` function, and defines a forwarding override, for every virtual
/// member function, each in the order of the class.
pub proof fn lemma_spi_class_forwards_every_callback(c: ClsAstView)
    ensures
        exists|ps: Seq<int>| #[trigger]
            virtual_parts_in_order(spi_class_decl(c), c.funcs, forward_decl_lines(c.funcs), ps),
        exists|ps: Seq<int>| #[trigger]
            virtual_parts_in_order(
                spi_class_decl(c),
                c.funcs,
                forward_externs(c.funcs, wrapper_name(c.name)),
                ps,
            ),
        exists|ps: Seq<int>| #[trigger]
            virtual_parts_in_order(
                spi_class_impl(c),
                c.funcs,
                forward_impls(c.funcs, wrapper_name(c.name)),
                ps,
            ),
{
    let rn = wrapper_name(c.name);
    let fs = c.funcs;
    let vf = virtual_funcs(fs);
    let dl = forward_decl_lines(vf);
    let ex = forward_externs(vf, rn);
    let im = forward_impls(vf, rn);
    let sep = "\n"@;
    assert forall|j: int| 0 <= j < fs.len() && is_virtual(fs[j].rtn) implies dl[virtual_before(
        fs,
        j,
    )] == #[trigger] forward_decl_lines(fs)[j] by {
        lemma_virtual_index(fs, j, fs.len() as int);
    }
    assert forall|j: int| 0 <= j < fs.len() && is_virtual(fs[j].rtn) implies ex[virtual_before(
        fs,
        j,
    )] == #[trigger] forward_externs(fs, rn)[j] by {
        lemma_virtual_index(fs, j, fs.len() as int);
    }
    assert forall|j: int| 0 <= j < fs.len() && is_virtual(fs[j].rtn) implies im[virtual_before(
        fs,
        j,
    )] == #[trigger] forward_impls(fs, rn)[j] by {
        lemma_virtual_index(fs, j, fs.len() as int);
    }
    let pre = "\nclass "@ + rn + " : "@ + c.name + " {\n    public:\n        void *m_rust;\n        "@
        + rn + "(void *rust);\n        ~"@ + rn + "();\n"@;
    let mid = "\n};\n"@;
    let tail = "\nextern \"C\" void "@ + rn + "_Trait_Drop(void* m_rust);\n"@;
    assert(spi_class_decl(c) =~= pre + concat(dl) + (mid + join(ex, sep) + tail));
    lemma_virtual_concat_in_order(
        spi_class_decl(c),
        pre,
        mid + join(ex, sep) + tail,
        fs,
        dl,
        forward_decl_lines(fs),
    );
    assert(spi_class_decl(c) =~= (pre + concat(dl) + mid) + join(ex, sep) + tail);
    lemma_virtual_join_in_order(
        spi_class_decl(c),
        pre + concat(dl) + mid,
        sep,
        tail,
        fs,
        ex,
        forward_externs(fs, rn),
    );
    let itail = rn + "::"@ + rn + "(void *rust) : m_rust(rust) {}\n"@ + rn + "::~"@ + rn + "() { "@
        + rn + "_Trait_Drop(m_rust); }\n"@;
    let ipre = "\n\n"@;
    assert(spi_class_impl(c) =~= ipre + join(im, sep) + (sep + itail));
    lemma_virtual_join_in_order(spi_class_impl(c), ipre, sep, sep + itail, fs, im, forward_impls(fs, rn));
}

impl ClsAst {
    /// A class named `cls_name`, with no base classes and no member functions yet.
    pub fn new(cls_name: &str) -> (r: Self)
        ensures
            r@.name == cls_name@,
            r@.funcs == Seq::<ClsFView>::empty(),
            r@.parent_count == 0,
            r.parent@.len() == 0,
    {
        let r = ClsAst { name: String::from_str(cls_name), parent: Vec::new(), funcs: Vec::new() };
        assert(r@.funcs =~= Seq::<ClsFView>::empty());
        r
    }

    /// The declaration and the definitions of the wrapper class of this API
    /// class; its destructor deletes the wrapped object only where
    /// `is_m_member_owned`.
    pub fn member_to_rust(self, is_m_member_owned: bool) -> (r: (String, String))
        requires
            all_params_ok(self@),
        ensures
            r.0@ == api_class_decl(self@),
            r.1@ == api_class_impl(self@, is_m_member_owned),
    {
        let ghost c = self@;
        let ghost fs = self@.funcs;
        let mut rust_name = String::from_str("Rust_");
        rust_name.append(self.name.as_str());
        let name = self.name;
        let mut funcs = self.funcs;
        let mut lines: Vec<String> = Vec::new();
        let mut impls: Vec<String> = Vec::new();
        let ghost mut i: int = 0;
        assert(fs.skip(0) =~= fs);
        assert(fs.take(0) =~= Seq::<ClsFView>::empty());
        assert(string_views(lines@) =~= member_decl_lines(fs.take(0)));
        assert(string_views(impls@) =~= member_impls(fs.take(0), rust_name@));
        while funcs.len() > 0
            invariant
                0 <= i <= fs.len(),
                c == (ClsAstView { name: name@, parent_count: c.parent_count, funcs: fs }),
                rust_name@ == wrapper_name(name@),
                all_params_ok(c),
                funcs@.map_values(|f: ClsF| f@) == fs.skip(i),
                string_views(lines@) == member_decl_lines(fs.take(i)),
                string_views(impls@) == member_impls(fs.take(i), rust_name@),
            decreases funcs@.len(),
        {
            let ghost before = funcs@;
            let f = funcs.remove(0);
            assert(f@ == fs[i]) by {
                assert(before.map_values(|g: ClsF| g@)[0] == before[0]@);
                assert(fs.skip(i).len() == before.len() > 0);
                assert(fs.skip(i)[0] == fs[i]);
            }
            assert(funcs@.map_values(|f: ClsF| f@) =~= fs.skip(i + 1)) by {
                assert(before.map_values(|g: ClsF| g@).drop_first() =~= fs.skip(i + 1));
            }
            assert(params_ok(fs[i])) by {
                assert(c.funcs[i] == fs[i]);
                assert(params_ok(c.funcs[i]));
            }
            let (cdef, cimpl) = f.member_to_rust(rust_name.as_str());
            let ghost old_impls = string_views(impls@);
            impls.push(cimpl);
            assert(string_views(impls@) =~= member_impls(fs.take(i + 1), rust_name@)) by {
                assert(string_views(impls@) =~= old_impls.push(member_impl_text(fs[i], rust_name@)));
                assert(fs.take(i + 1) =~= fs.take(i).push(fs[i]));
            }
            let mut line = String::from_str("        ");
            line.append(cdef.as_str());
            line.append("\n");
            let ghost old_lines = string_views(lines@);
            lines.push(line);
            assert(string_views(lines@) =~= member_decl_lines(fs.take(i + 1))) by {
                assert(string_views(lines@) =~= old_lines.push(
                    "        "@ + member_decl_text(fs[i]) + "\n"@,
                ));
                assert(fs.take(i + 1) =~= fs.take(i).push(fs[i]));
            }
            proof {
                i = i + 1;
            }
        }
        assert(fs.skip(i).len() == 0);
        assert(fs.take(i) =~= fs);
        let funcs_repl = concat_strings(&lines);
        let mut ctor = rust_name.clone();
        ctor.append("::");
        ctor.append(rust_name.as_str());
        ctor.append("(");
        ctor.append(name.as_str());
        ctor.append(" *member) : m_member(member) {  };");
        let des = if is_m_member_owned {
            "delete m_member;"
        } else {
            ""
        };
        let mut dtor = rust_name.clone();
        dtor.append("::~");
        dtor.append(rust_name.as_str());
        dtor.append("() { ");
        dtor.append(des);
        dtor.append(" };");
        let ghost old_impls = string_views(impls@);
        impls.push(ctor);
        impls.push(dtor);
        assert(string_views(impls@) =~= old_impls.push(ctor@).push(dtor@));
        let impls_repl = join_strings(&impls, "\n");

        let mut cdef = String::from_str("\nclass ");
        cdef.append(rust_name.as_str());
        cdef.append(" {\n    public:\n        ");
        cdef.append(name.as_str());
        cdef.append(" *m_member;\n        ");
        cdef.append(rust_name.as_str());
        cdef.append("(");
        cdef.append(name.as_str());
        cdef.append(" *member);\n        ~");
        cdef.append(rust_name.as_str());
        cdef.append("();\n");
        cdef.append(funcs_repl.as_str());
        cdef.append("\n};\n");

        let mut cpp = String::from_str("\n");
        cpp.append(impls_repl.as_str());
        cpp.append("\n");
        (cdef, cpp)
    }

    /// The declaration and the definitions of the forwarding subclass of this
    /// callback class, which overrides each virtual member function.
    pub fn forward_to_rust(self) -> (r: (String, String))
        requires
            virtual_params_ok(self@),
        ensures
            r.0@ == spi_class_decl(self@),
            r.1@ == spi_class_impl(self@),
    {
        let ghost c = self@;
        let ghost fs = self@.funcs;
        let mut rust_name = String::from_str("Rust_");
        rust_name.append(self.name.as_str());
        let name = self.name;
        let mut funcs = self.funcs;
        let mut lines: Vec<String> = Vec::new();
        let mut impls: Vec<String> = Vec::new();
        let mut externcs: Vec<String> = Vec::new();
        let ghost mut i: int = 0;
        assert(fs.skip(0) =~= fs);
        assert(fs.take(0) =~= Seq::<ClsFView>::empty());
        assert(string_views(lines@) =~= forward_decl_lines(virtual_funcs(fs.take(0))));
        assert(string_views(impls@) =~= forward_impls(virtual_funcs(fs.take(0)), rust_name@));
        assert(string_views(externcs@) =~= forward_externs(
            virtual_funcs(fs.take(0)),
            rust_name@,
        ));
        while funcs.len() > 0
            invariant
                0 <= i <= fs.len(),
                c == (ClsAstView { name: name@, parent_count: c.parent_count, funcs: fs }),
                rust_name@ == wrapper_name(name@),
                virtual_params_ok(c),
                funcs@.map_values(|f: ClsF| f@) == fs.skip(i),
                string_views(lines@) == forward_decl_lines(virtual_funcs(fs.take(i))),
                string_views(impls@) == forward_impls(virtual_funcs(fs.take(i)), rust_name@),
                string_views(externcs@) == forward_externs(virtual_funcs(fs.take(i)), rust_name@),
            decreases funcs@.len(),
        {
            let ghost before = funcs@;
            let f = funcs.remove(0);
            assert(f@ == fs[i]) by {
                assert(before.map_values(|g: ClsF| g@)[0] == before[0]@);
                assert(fs.skip(i).len() == before.len() > 0);
                assert(fs.skip(i)[0] == fs[i]);
            }
            assert(funcs@.map_values(|f: ClsF| f@) =~= fs.skip(i + 1)) by {
                assert(before.map_values(|g: ClsF| g@).drop_first() =~= fs.skip(i + 1));
            }
            assert(fs.take(i + 1).drop_last() =~= fs.take(i));
            let ghost vf = virtual_funcs(fs.take(i));
            assert(is_virtual(fs[i].rtn) ==> params_ok(fs[i])) by {
                assert(c.funcs[i] == fs[i]);
            }
            match f.forward_to_rust(rust_name.as_str()) {
                Some(parts) => {
                    let (cdef, cimpl, externc) = parts;
                    let ghost old_impls = string_views(impls@);
                    let ghost old_externs = string_views(externcs@);
                    let ghost old_lines = string_views(lines@);
                    impls.push(cimpl);
                    externcs.push(externc);
                    let mut line = String::from_str("        ");
                    line.append(cdef.as_str());
                    line.append("\n");
                    lines.push(line);
                    assert(virtual_funcs(fs.take(i + 1)) == vf.push(fs[i]));
                    assert(string_views(impls@) =~= old_impls.push(
                        forward_impl_text(fs[i], rust_name@),
                    ));
                    assert(string_views(externcs@) =~= old_externs.push(
                        forward_extern_text(fs[i], rust_name@),
                    ));
                    assert(string_views(impls@) =~= forward_impls(vf.push(fs[i]), rust_name@));
                    assert(string_views(externcs@) =~= forward_externs(
                        vf.push(fs[i]),
                        rust_name@,
                    ));
                    assert(string_views(lines@) =~= old_lines.push(
                        "        "@ + forward_decl_text(fs[i]) + "\n"@,
                    ));
                    assert(string_views(lines@) =~= forward_decl_lines(vf.push(fs[i])));
                },
                None => {
                    assert(virtual_funcs(fs.take(i + 1)) == vf);
                },
            }
            proof {
                i = i + 1;
            }
        }
        assert(fs.skip(i).len() == 0);
        assert(fs.take(i) =~= fs);
        let funcs_repl = concat_strings(&lines);
        let impls_repl = join_strings(&impls, "\n");
        let externcs_repl = join_strings(&externcs, "\n");

        let mut cdef = String::from_str("\nclass ");
        cdef.append(rust_name.as_str());
        cdef.append(" : ");
        cdef.append(name.as_str());
        cdef.append(" {\n    public:\n        void *m_rust;\n        ");
        cdef.append(rust_name.as_str());
        cdef.append("(void *rust);\n        ~");
        cdef.append(rust_name.as_str());
        cdef.append("();\n");
        cdef.append(funcs_repl.as_str());
        cdef.append("\n};\n");
        cdef.append(externcs_repl.as_str());
        cdef.append("\nextern \"C\" void ");
        cdef.append(rust_name.as_str());
        cdef.append("_Trait_Drop(void* m_rust);\n");

        let mut cpp = String::from_str("\n\n");
        cpp.append(impls_repl.as_str());
        cpp.append("\n");
        cpp.append(rust_name.as_str());
        cpp.append("::");
        cpp.append(rust_name.as_str());
        cpp.append("(void *rust) : m_rust(rust) {}\n");
        cpp.append(rust_name.as_str());
        cpp.append("::~");
        cpp.append(rust_name.as_str());
        cpp.append("() { ");
        cpp.append(rust_name.as_str());
        cpp.append("_Trait_Drop(m_rust); }\n");
        (cdef, cpp)
    }
}

impl ClsF {
    /// Whether this function is declared `virtual`, that is, is a callback.
    pub fn is_callback(&self) -> (r: bool)
        ensures
            r == is_virtual(self@.rtn),
    {
        self.rendered_return().1
    }
}

impl ClsAst {
    /// Whether the parameter list of every member function reads, as
    /// `member_to_rust` requires.
    pub fn member_params_read(&self) -> (r: bool)
        ensures
            r == all_params_ok(self@),
    {
        let n = self.funcs.len();
        let mut i: usize = 0;
        while i < n
            invariant
                i <= n,
                n == self@.funcs.len(),
                forall|j: int| 0 <= j < i ==> #[trigger] params_ok(self@.funcs[j]),
            decreases n - i,
        {
            assert(self@.funcs[i as int] == self.funcs@[i as int]@);
            match parse_params(self.funcs[i].args.as_str()) {
                Some(_) => {},
                None => {
                    assert(!params_ok(self@.funcs[i as int]));
                    return false;
                },
            }
            i = i + 1;
        }
        true
    }

    /// Whether the parameter list of every virtual member function reads, as
    /// `forward_to_rust` requires.
    pub fn callback_params_read(&self) -> (r: bool)
        ensures
            r == virtual_params_ok(self@),
    {
        let n = self.funcs.len();
        let mut i: usize = 0;
        while i < n
            invariant
                i <= n,
                n == self@.funcs.len(),
                forall|j: int|
                    0 <= j < i && is_virtual(self@.funcs[j].rtn) ==> #[trigger] params_ok(
                        self@.funcs[j],
                    ),
            decreases n - i,
        {
            assert(self@.funcs[i as int] == self.funcs@[i as int]@);
            if self.funcs[i].is_callback() {
                match parse_params(self.funcs[i].args.as_str()) {
                    Some(_) => {},
                    None => {
                        assert(!params_ok(self@.funcs[i as int]));
                        return false;
                    },
                }
            }
            i = i + 1;
        }
        true
    }
}

} // verus!
