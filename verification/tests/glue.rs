use ctp_build::bind::{auto_bind_text, port_ctp_md_text, port_ctp_td_text, port_header, BindError};
use ctp_build::cls::{ClsAst, ClsF};
use ctp_build::header::{doc_comment, member_from_match, walk_hpp, HeaderError};
use ctp_build::params::{param_from_match, parse_params};
use ctp_build::table::ClassTable;
use ctp_build::text::{split_chars, trim_chars};

fn s(x: &str) -> String {
    x.to_string()
}

fn func(rtn: &str, name: &str, args: &str) -> ClsF {
    ClsF::new(s(rtn), s(name), s(args), s(" = 0"), vec![])
}

fn chars(x: &str) -> Vec<char> {
    x.chars().collect()
}

const SMALL_HEADER: &str = "class A\n{\npublic:\n\t///doc one\n\tvirtual int Go(int n) = 0;\n};\nclass B\n{\npublic:\n\tvirtual void OnX(int a) {};\n\tvoid Plain();\n};\n";

const SMALL_HPP: &str = "\nclass Rust_A {\n    public:\n        A *m_member;\n        Rust_A(A *member);\n        ~Rust_A();\n        int Go(int n);\n\n};\n\nclass Rust_B : B {\n    public:\n        void *m_rust;\n        Rust_B(void *rust);\n        ~Rust_B();\n        void OnX(int a) override;\n\n};\nextern \"C\" void Rust_B_Trait_OnX(void *m_rust, int a);\nextern \"C\" void Rust_B_Trait_Drop(void* m_rust);\n";

const SMALL_CPP: &str = "\nint Rust_A::Go(int n) { return m_member->Go(n); }\nRust_A::Rust_A(A *member) : m_member(member) {  };\nRust_A::~Rust_A() {  };\n\n\nvoid Rust_B::OnX(int a) { return Rust_B_Trait_OnX(m_rust, a); }\nRust_B::Rust_B(void *rust) : m_rust(rust) {}\nRust_B::~Rust_B() { Rust_B_Trait_Drop(m_rust); }\n";

#[test]
fn trim_removes_surrounding_space_only() {
    assert_eq!(trim_chars(&chars(" \t a b \r\n")), chars("a b"));
    assert_eq!(trim_chars(&chars("   ")), chars(""));
    assert_eq!(trim_chars(&chars("\u{3000}x\u{a0}")), chars("x"));
    let once = trim_chars(&chars("  a b  "));
    assert_eq!(trim_chars(&once), once);
}

#[test]
fn split_keeps_empty_pieces() {
    let pieces = split_chars(&chars("a,,b,"), ',');
    assert_eq!(pieces, vec![chars("a"), chars(""), chars("b"), chars("")]);
    assert_eq!(split_chars(&chars(""), ','), vec![chars("")]);
    let joined: Vec<String> = pieces.iter().map(|p| p.iter().collect()).collect();
    assert_eq!(joined.join(","), "a,,b,");
}

#[test]
fn params_empty_list() {
    assert_eq!(parse_params(""), Some((vec![], vec![])));
    assert_eq!(parse_params("  ,  "), Some((vec![], vec![])));
}

#[test]
fn params_move_stars_to_type() {
    assert_eq!(
        parse_params("char *ppInstrumentID[], int nCount"),
        Some((vec![s("char* ppInstrumentID[]"), s("int nCount")], vec![s("ppInstrumentID"), s("nCount")]))
    );
    assert_eq!(
        parse_params("CThostFtdcReqUserLoginField *pReqUserLoginField, int nRequestID"),
        Some((
            vec![s("CThostFtdcReqUserLoginField* pReqUserLoginField"), s("int nRequestID")],
            vec![s("pReqUserLoginField"), s("nRequestID")]
        ))
    );
    assert_eq!(parse_params("const char **pp"), Some((vec![s("const char** pp")], vec![s("pp")])));
}

#[test]
fn params_default_value_is_cut_at_equals() {
    assert_eq!(parse_params("int nRequestID = 0"), Some((vec![s("= 0")], vec![s("0")])));
}

#[test]
fn params_without_name_do_not_read() {
    assert_eq!(parse_params("x"), None);
    assert_eq!(parse_params("int a, b"), None);
}

#[test]
fn param_from_match_exact() {
    assert_eq!(param_from_match(s("char"), "*pp", "[]"), (s("char* pp[]"), s("pp")));
    assert_eq!(param_from_match(s("int"), "n", ""), (s("int n"), s("n")));
}

#[test]
fn doc_comment_needs_third_slash() {
    assert_eq!(doc_comment("/doc one"), Ok(s("doc one")));
    assert_eq!(doc_comment(" plain"), Err(HeaderError::CommentNotDoc));
    assert_eq!(doc_comment(""), Err(HeaderError::CommentNotDoc));
}

#[test]
fn member_from_match_cases() {
    let comments = vec![s("doc")];
    let f = member_from_match((s("virtual int"), s("Go"), s("int n"), s(" = 0")), &comments)
        .unwrap()
        .unwrap();
    assert_eq!((f.rtn.as_str(), f.name.as_str(), f.args.as_str(), f.decl.as_str()), ("virtual int", "Go", "int n", " = 0"));
    assert_eq!(f.comments, vec![s("doc")]);
    let g = member_from_match((s("virtual CThostFtdcMdApi"), s("**Make"), s(""), s("")), &vec![])
        .unwrap()
        .unwrap();
    assert_eq!((g.rtn.as_str(), g.name.as_str()), ("virtual CThostFtdcMdApi**", "Make"));
    assert!(member_from_match((s("static CThostFtdcMdApi"), s("*Create"), s(""), s("")), &comments)
        .unwrap()
        .is_none());
    assert_eq!(
        member_from_match((s("void"), s("F"), s(""), s(" {")), &comments).err(),
        Some(HeaderError::UnbalancedBraces)
    );
}

#[test]
fn cls_f_new_copies_comments() {
    let f = ClsF::new(s("int"), s("F"), s("int a"), s(""), vec!["one", "two"]);
    assert_eq!(f.comments, vec![s("one"), s("two")]);
    assert_eq!(f.rtn, "int");
}

#[test]
fn member_to_rust_forwards_to_member() {
    let f = func("virtual int", "SubscribeMarketData", "char *ppInstrumentID[], int nCount");
    let (cdef, cimpl) = f.member_to_rust("Rust_CThostFtdcMdApi");
    assert_eq!(cdef, "int SubscribeMarketData(char* ppInstrumentID[], int nCount);");
    assert_eq!(
        cimpl,
        "int Rust_CThostFtdcMdApi::SubscribeMarketData(char* ppInstrumentID[], int nCount) { return m_member->SubscribeMarketData(ppInstrumentID, nCount); }"
    );
    let (cdef, cimpl) = func("  virtual   void ", "Release", "").member_to_rust("Rust_X");
    assert_eq!(cdef, "void Release();");
    assert_eq!(cimpl, "void Rust_X::Release() { return m_member->Release(); }");
    let (cdef, _) = func("const char *", "Name", "").member_to_rust("Rust_X");
    assert_eq!(cdef, "const char * Name();");
}

#[test]
fn forward_to_rust_only_virtual() {
    assert!(func("void", "Plain", "x").forward_to_rust("Rust_B").is_none());
    let f = func("virtual void", "OnRspUserLogin", "CThostFtdcRspUserLoginField *pRspUserLogin, int nRequestID, bool bIsLast");
    assert!(f.is_callback());
    let (cdef, cimpl, externc) = f.forward_to_rust("Rust_CThostFtdcTraderSpi").unwrap();
    assert_eq!(cdef, "void OnRspUserLogin(CThostFtdcRspUserLoginField* pRspUserLogin, int nRequestID, bool bIsLast) override;");
    assert_eq!(
        cimpl,
        "void Rust_CThostFtdcTraderSpi::OnRspUserLogin(CThostFtdcRspUserLoginField* pRspUserLogin, int nRequestID, bool bIsLast) { return Rust_CThostFtdcTraderSpi_Trait_OnRspUserLogin(m_rust, pRspUserLogin, nRequestID, bIsLast); }"
    );
    assert_eq!(
        externc,
        "extern \"C\" void Rust_CThostFtdcTraderSpi_Trait_OnRspUserLogin(void *m_rust, CThostFtdcRspUserLoginField* pRspUserLogin, int nRequestID, bool bIsLast);"
    );
    let (_, cimpl, externc) = func("virtual void", "OnFrontConnected", "").forward_to_rust("Rust_S").unwrap();
    assert_eq!(cimpl, "void Rust_S::OnFrontConnected() { return Rust_S_Trait_OnFrontConnected(m_rust); }");
    assert_eq!(externc, "extern \"C\" void Rust_S_Trait_OnFrontConnected(void *m_rust);");
}

#[test]
fn cls_ast_new_is_empty() {
    let c = ClsAst::new("CThostFtdcMdApi");
    assert_eq!(c.name, "CThostFtdcMdApi");
    assert!(c.parent.is_empty());
    assert!(c.funcs.is_empty());
}

#[test]
fn api_class_wrapper() {
    let mut c = ClsAst::new("A");
    c.funcs.push(func("virtual int", "Go", "int n"));
    assert!(c.member_params_read());
    let (hpp, cpp) = c.member_to_rust(true);
    assert_eq!(hpp, "\nclass Rust_A {\n    public:\n        A *m_member;\n        Rust_A(A *member);\n        ~Rust_A();\n        int Go(int n);\n\n};\n");
    assert_eq!(cpp, "\nint Rust_A::Go(int n) { return m_member->Go(n); }\nRust_A::Rust_A(A *member) : m_member(member) {  };\nRust_A::~Rust_A() { delete m_member; };\n");
    let (hpp, cpp) = ClsAst::new("E").member_to_rust(false);
    assert_eq!(hpp, "\nclass Rust_E {\n    public:\n        E *m_member;\n        Rust_E(E *member);\n        ~Rust_E();\n\n};\n");
    assert_eq!(cpp, "\nRust_E::Rust_E(E *member) : m_member(member) {  };\nRust_E::~Rust_E() {  };\n");
}

#[test]
fn spi_class_subclass() {
    let mut c = ClsAst::new("B");
    c.funcs.push(func("virtual void", "OnX", "int a"));
    c.funcs.push(func("void", "Plain", "x"));
    c.funcs.push(func("virtual void", "OnY", ""));
    assert!(!c.member_params_read());
    assert!(c.callback_params_read());
    let (hpp, cpp) = c.forward_to_rust();
    assert_eq!(hpp, "\nclass Rust_B : B {\n    public:\n        void *m_rust;\n        Rust_B(void *rust);\n        ~Rust_B();\n        void OnX(int a) override;\n        void OnY() override;\n\n};\nextern \"C\" void Rust_B_Trait_OnX(void *m_rust, int a);\nextern \"C\" void Rust_B_Trait_OnY(void *m_rust);\nextern \"C\" void Rust_B_Trait_Drop(void* m_rust);\n");
    assert_eq!(cpp, "\n\nvoid Rust_B::OnX(int a) { return Rust_B_Trait_OnX(m_rust, a); }\nvoid Rust_B::OnY() { return Rust_B_Trait_OnY(m_rust); }\nRust_B::Rust_B(void *rust) : m_rust(rust) {}\nRust_B::~Rust_B() { Rust_B_Trait_Drop(m_rust); }\n");
}

#[test]
fn walk_hpp_reads_classes() {
    let mut t = walk_hpp(SMALL_HEADER).unwrap();
    let a = t.remove("A").unwrap();
    assert_eq!(a.name, "A");
    assert!(a.parent.is_empty());
    assert_eq!(a.funcs.len(), 1);
    assert_eq!(a.funcs[0].rtn, "virtual int");
    assert_eq!(a.funcs[0].name, "Go");
    assert_eq!(a.funcs[0].args, "int n");
    assert_eq!(a.funcs[0].decl, " = 0");
    assert_eq!(a.funcs[0].comments, vec![s("doc one")]);
    let b = t.remove("B").unwrap();
    let names: Vec<&str> = b.funcs.iter().map(|f| f.name.as_str()).collect();
    assert_eq!(names, vec!["OnX", "Plain"]);
    assert_eq!(b.funcs[0].decl, " {}");
    assert!(t.remove("A").is_none());
}

#[test]
fn walk_hpp_skips_static_and_stops_at_close() {
    let text = "class MDAPI_EXPORT M\n{\npublic:\n\t///create\n\tstatic M *Create(const char *p = \"\");\n\t///version\n\t///more\n\tstatic const char *GetApiVersion();\n\tvirtual void Release() = 0;\nprotected:\n\t~M(){};\n};\n\tvirtual void After() = 0;\n";
    let mut t = walk_hpp(text).unwrap();
    let m = t.remove("M").unwrap();
    assert_eq!(m.funcs.len(), 1);
    assert_eq!(m.funcs[0].name, "Release");
    assert!(m.funcs[0].comments.is_empty());
}

#[test]
fn walk_hpp_later_class_replaces_earlier() {
    let text = "class A {\n\tvirtual void One() = 0;\n};\nclass A {\n\tvirtual void Two() = 0;\n};\n";
    let mut t = walk_hpp(text).unwrap();
    let a = t.remove("A").unwrap();
    assert_eq!(a.funcs.len(), 1);
    assert_eq!(a.funcs[0].name, "Two");
}

#[test]
fn walk_hpp_errors() {
    let bad_comment = "class A\n{\n\t// plain comment\n};\n";
    assert_eq!(walk_hpp(bad_comment).err(), Some(HeaderError::CommentNotDoc));
    let bad_braces = "class A\n{\n\tvirtual void F() {;\n};\n";
    assert_eq!(walk_hpp(bad_braces).err(), Some(HeaderError::UnbalancedBraces));
    let after_close = "class A\n{\n};\n// plain comment\n";
    assert!(walk_hpp(after_close).is_ok());
}

#[test]
fn class_table_insert_and_remove() {
    let mut t = ClassTable::new();
    assert!(t.remove("A").is_none());
    let mut first = ClsAst::new("A");
    first.funcs.push(func("int", "F", ""));
    t.insert(first);
    t.insert(ClsAst::new("B"));
    t.insert(ClsAst::new("A"));
    let a = t.remove("A").unwrap();
    assert!(a.funcs.is_empty());
    assert!(t.remove("A").is_none());
    assert_eq!(t.remove("B").unwrap().name, "B");
}

#[test]
fn port_header_small() {
    let (hpp, cpp) = port_header(SMALL_HEADER, "A", "B").unwrap();
    assert_eq!(hpp, SMALL_HPP);
    assert_eq!(cpp, SMALL_CPP);
}

#[test]
fn port_header_errors() {
    assert_eq!(port_header(SMALL_HEADER, "Z", "B").err(), Some(BindError::NoApiClass));
    assert_eq!(port_header(SMALL_HEADER, "A", "Z").err(), Some(BindError::NoSpiClass));
    assert_eq!(port_header(SMALL_HEADER, "A", "A").err(), Some(BindError::NoSpiClass));
    let bad_api = "class A\n{\n\tvirtual void F(x) = 0;\n};\nclass B\n{\n};\n";
    assert_eq!(port_header(bad_api, "A", "B").err(), Some(BindError::BadParameter));
    let bad_spi = "class A\n{\n};\nclass B\n{\n\tvirtual void F(x) = 0;\n};\n";
    assert_eq!(port_header(bad_spi, "A", "B").err(), Some(BindError::BadParameter));
    let plain_spi = "class A\n{\n};\nclass B\n{\n\tvoid F(x);\n};\n";
    assert!(port_header(plain_spi, "A", "B").is_ok());
    let bad_header = "class A\n{\n\t// plain\n};\n";
    assert_eq!(
        port_header(bad_header, "A", "B").err(),
        Some(BindError::Header(HeaderError::CommentNotDoc))
    );
}

#[test]
fn port_ctp_headers() {
    let md = "class MD_API_EXPORT CThostFtdcMdSpi\n{\npublic:\n\t///connected\n\tvirtual void OnFrontConnected(){};\n};\nclass MD_API_EXPORT CThostFtdcMdApi\n{\npublic:\n\tvirtual int Join() = 0;\n};\n";
    let (hpp, cpp) = port_ctp_md_text(md).unwrap();
    assert!(hpp.starts_with("\nclass Rust_CThostFtdcMdApi {\n"));
    assert!(hpp.contains("\nclass Rust_CThostFtdcMdSpi : CThostFtdcMdSpi {\n"));
    assert!(hpp.contains("        int Join();\n"));
    assert!(hpp.contains("extern \"C\" void Rust_CThostFtdcMdSpi_Trait_OnFrontConnected(void *m_rust);\n"));
    assert!(cpp.contains("int Rust_CThostFtdcMdApi::Join() { return m_member->Join(); }\n"));
    assert_eq!(port_ctp_td_text(md).err(), Some(BindError::NoApiClass));
    let td = "class TRADER_API_EXPORT CThostFtdcTraderSpi\n{\n};\nclass TRADER_API_EXPORT CThostFtdcTraderApi\n{\n};\n";
    let (hpp, _) = port_ctp_td_text(td).unwrap();
    assert!(hpp.starts_with("\nclass Rust_CThostFtdcTraderApi {\n"));
}

#[test]
fn auto_bind_text_gathers_parts() {
    let (hpp, cpp) = auto_bind_text((s("H1"), s("C1")), (s("H2"), s("C2")));
    assert_eq!(hpp, "#pragma once\n\n#include \"ThostFtdcUserApiDataType.h\"\n#include \"ThostFtdcUserApiStruct.h\"\n#include \"ThostFtdcTraderApi.h\"\n#include \"ThostFtdcMdApi.h\"\n    H1\nH2\n");
    assert_eq!(cpp, "\n#include \"wrapper.hpp\"\n\n    C1\nC2\n");
}

#[test]
fn walk_hpp_drops_comments_of_static_functions() {
    let text = "class A\n{\npublic:\n\t///c1\n\tvirtual void f(int a) {};\n\t///c2\n\tstatic A *Create();\n\tvirtual int g() = 0;\n};\n\tvirtual void h();\n";
    let mut t = walk_hpp(text).unwrap();
    let a = t.remove("A").unwrap();
    assert_eq!(a.name, "A");
    assert!(a.parent.is_empty());
    let funcs: Vec<(&str, &str, &str, &str, Vec<String>)> = a
        .funcs
        .iter()
        .map(|f| (f.rtn.as_str(), f.name.as_str(), f.args.as_str(), f.decl.as_str(), f.comments.clone()))
        .collect();
    assert_eq!(
        funcs,
        vec![
            ("virtual void", "f", "int a", " {}", vec![s("c1")]),
            ("virtual int", "g", "", " = 0", vec![]),
        ]
    );
    assert!(t.remove("A").is_none());
}

#[test]
fn forward_subclass_ignores_plain_functions() {
    let mut c1 = ClsAst::new("S");
    c1.funcs.push(func("virtual void", "OnA", "int a"));
    c1.funcs.push(func("virtual void", "OnB", ""));
    let mut c2 = ClsAst::new("S");
    c2.funcs.push(func("int", "Plain1", "unparsable"));
    c2.funcs.push(func("virtual void", "OnA", "int a"));
    c2.funcs.push(func("static void", "Plain2", "x"));
    c2.funcs.push(func("virtual void", "OnB", ""));
    assert!(c2.callback_params_read());
    assert_eq!(c1.forward_to_rust(), c2.forward_to_rust());
}
