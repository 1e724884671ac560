//! The glue sources of the CTP API: for each header, the wrapper of its API
//! class and the forwarding subclass of its callback class, and the two files
//! that gather them.
use vstd::prelude::*;

use crate::cls::{
    all_params_ok, api_class_decl, api_class_impl, spi_class_decl, spi_class_impl,
    virtual_params_ok,
};
use crate::header::{header_classes, walk_hpp, HeaderError};

verus! {

/// Why glue code cannot be generated from a header.
#[derive(Debug, Clone, Copy, PartialEq, Eq, Structural)]
pub enum BindError {
    /// The header cannot be read.
    Header(HeaderError),
    /// The header declares no API class of the requested name.
    NoApiClass,
    /// The header declares no callback class of the requested name.
    NoSpiClass,
    /// A parameter list that has to be rendered does not read.
    BadParameter,
}

/// The glue code of a header: the declarations and the definitions of the
/// wrapper of the API class `api` (which does not own the wrapped object),
/// followed by those of the forwarding subclass of the callback class `spi`.
/// Each error comes where the first step that needs it fails: reading the
/// header, finding `api`, reading its parameter lists, finding `spi` among the
/// remaining classes, reading its callbacks' parameter lists.
pub open spec fn port_result(content: Seq<char>, api: Seq<char>, spi: Seq<char>) -> Result<
    (Seq<char>, Seq<char>),
    BindError,
> {
    match header_classes(content) {
        Err(e) => Err(BindError::Header(e)),
        Ok(m) => if !m.contains_key(api) {
            Err(BindError::NoApiClass)
        } else if !all_params_ok(m[api]) {
            Err(BindError::BadParameter)
        } else {
            let rest = m.remove(api);
            if !rest.contains_key(spi) {
                Err(BindError::NoSpiClass)
            } else if !virtual_params_ok(rest[spi]) {
                Err(BindError::BadParameter)
            } else {
                Ok(
                    (
                        api_class_decl(m[api]) + spi_class_decl(rest[spi]),
                        api_class_impl(m[api], false) + spi_class_impl(rest[spi]),
                    ),
                )
            }
        },
    }
}

/// Generates the glue code of the header `content` for its API class `api`
/// and its callback class `spi`: (header part, source part).
pub fn port_header(content: &str, api: &str, spi: &str) -> (r: Result<(String, String), BindError>)
    ensures
        r matches Ok(p) ==> port_result(content@, api@, spi@) == Ok::<
            (Seq<char>, Seq<char>),
            BindError,
        >((p.0@, p.1@)),
        r matches Err(e) ==> port_result(content@, api@, spi@) == Err::<
            (Seq<char>, Seq<char>),
            BindError,
        >(e),
{
    let mut meta = match walk_hpp(content) {
        Ok(t) => t,
        Err(e) => {
            return Err(BindError::Header(e));
        },
    };
    let ghost m = meta@;
    let c1 = match meta.remove(api) {
        Some(c) => c,
        None => {
            return Err(BindError::NoApiClass);
        },
    };
    if !c1.member_params_read() {
        return Err(BindError::BadParameter);
    }
    let (hpp_buf, cpp_buf) = c1.member_to_rust(false);
    let c2 = match meta.remove(spi) {
        Some(c) => c,
        None => {
            return Err(BindError::NoSpiClass);
        },
    };
    if !c2.callback_params_read() {
        return Err(BindError::BadParameter);
    }
    let (hpp, cpp) = c2.forward_to_rust();
    let mut hpp_all = hpp_buf;
    hpp_all.append(hpp.as_str());
    let mut cpp_all = cpp_buf;
    cpp_all.append(cpp.as_str());
    Ok((hpp_all, cpp_all))
}

/// Generates the glue code of the market data header `ThostFtdcMdApi.h`.
pub fn port_ctp_md_text(content: &str) -> (r: Result<(String, String), BindError>)
    ensures
        r matches Ok(p) ==> port_result(content@, "CThostFtdcMdApi"@, "CThostFtdcMdSpi"@) == Ok::<
            (Seq<char>, Seq<char>),
            BindError,
        >((p.0@, p.1@)),
        r matches Err(e) ==> port_result(content@, "CThostFtdcMdApi"@, "CThostFtdcMdSpi"@)
            == Err::<(Seq<char>, Seq<char>), BindError>(e),
{
    port_header(content, "CThostFtdcMdApi", "CThostFtdcMdSpi")
}

/// Generates the glue code of the trading header `ThostFtdcTraderApi.h`.
pub fn port_ctp_td_text(content: &str) -> (r: Result<(String, String), BindError>)
    ensures
        r matches Ok(p) ==> port_result(content@, "CThostFtdcTraderApi"@, "CThostFtdcTraderSpi"@)
            == Ok::<(Seq<char>, Seq<char>), BindError>((p.0@, p.1@)),
        r matches Err(e) ==> port_result(
            content@,
            "CThostFtdcTraderApi"@,
            "CThostFtdcTraderSpi"@,
        ) == Err::<(Seq<char>, Seq<char>), BindError>(e),
{
    port_header(content, "CThostFtdcTraderApi", "CThostFtdcTraderSpi")
}

/// The start of the generated header `wrapper.hpp`.
pub open spec fn hpp_prelude() -> Seq<char> {
    "#pragma once\n\n#include \"ThostFtdcUserApiDataType.h\"\n#include \"ThostFtdcUserApiStruct.h\"\n#include \"ThostFtdcTraderApi.h\"\n#include \"ThostFtdcMdApi.h\"\n    "@
}

/// The start of the generated source `wrapper.cpp`.
pub open spec fn cpp_prelude() -> Seq<char> {
    "\n#include \"wrapper.hpp\"\n\n    "@
}

/// The contents of `wrapper.hpp` and `wrapper.cpp` from the glue code of the
/// market data header `md` and of the trading header `td`: each file is its
/// prelude, then the market data part and a newline, then the trading part
/// and a newline.
pub fn auto_bind_text(md: (String, String), td: (String, String)) -> (r: (String, String))
    ensures
        r.0@ == hpp_prelude() + md.0@ + "\n"@ + td.0@ + "\n"@,
        r.1@ == cpp_prelude() + md.1@ + "\n"@ + td.1@ + "\n"@,
{
    let mut hpp_buf = String::from_str(
        "#pragma once\n\n#include \"ThostFtdcUserApiDataType.h\"\n#include \"ThostFtdcUserApiStruct.h\"\n#include \"ThostFtdcTraderApi.h\"\n#include \"ThostFtdcMdApi.h\"\n    ",
    );
    let mut cpp_buf = String::from_str("\n#include \"wrapper.hpp\"\n\n    ");
    hpp_buf.append(md.0.as_str());
    hpp_buf.append("\n");
    cpp_buf.append(md.1.as_str());
    cpp_buf.append("\n");
    hpp_buf.append(td.0.as_str());
    hpp_buf.append("\n");
    cpp_buf.append(td.1.as_str());
    cpp_buf.append("\n");
    (hpp_buf, cpp_buf)
}

} // verus!
