//! The code of segment modules where oxc reads or prints it: the shape of an
//! extracted closure, the capture reads prepended to its body, and the final
//! normalisation of an assembled module by oxc's parser and code generator.

use vstd::prelude::*;

use crate::code_move::{
    arrow_concise_body_spec, arrow_params_spec, extract_arrow_concise_body, extract_arrow_params,
    prepend_block_arrow_spec, prepend_function_body_spec, prepend_into_block_arrow,
    prepend_into_function_body, read_captures, read_captures_spec, views,
};
use crate::hash::opt_view;
use oxc::allocator::Allocator;
use oxc::ast::ast::{ArrowFunctionBody, Expression, Statement};
use oxc::codegen::{Codegen, CodegenOptions};
use oxc::parser::Parser;
use oxc::span::SourceType;
use std::path::PathBuf;
use crate::opt_string_view;

verus! {

/// The shape of an extracted closure as oxc parses it.
#[derive(Debug, Clone, Copy, PartialEq, Eq, Structural)]
pub enum ExprShape {
    /// An arrow with an expression body.
    ConciseArrow,
    /// An arrow with a block body.
    BlockArrow,
    /// A `function` expression.
    Function,
}

/// What oxc's parser makes of `src` (an ES module): the shape of the
/// initializer of its first statement, when that statement is a variable
/// declaration whose first declarator has a closure as initializer; `None`
/// otherwise or when the parser panics.
pub uninterp spec fn oxc_initializer_shape(src: Seq<char>) -> Option<ExprShape>;

/// Parse `src` with `oxc::parser::Parser` (as `SourceType::mjs`) and read the
/// kind of the first declarator's initializer. The contract names the result.
#[verifier::external_body]
fn initializer_shape(src: &str) -> (r: Option<ExprShape>)
    ensures
        r == oxc_initializer_shape(src@),
{
    let allocator = Allocator::default();
    let ret = Parser::new(&allocator, src, SourceType::mjs()).parse();
    let init = match ret.program.body.first() {
        Some(Statement::VariableDeclaration(d)) if !ret.panicked => d.declarations.first().and_then(|x| x.init.as_ref()),
        _ => None,
    };
    match init {
        Some(Expression::ArrowFunctionExpression(a)) => match &a.body {
            ArrowFunctionBody::FunctionBody(_) => Some(ExprShape::BlockArrow),
            _ => Some(ExprShape::ConciseArrow),
        },
        Some(Expression::FunctionExpression(_)) => Some(ExprShape::Function),
        _ => None,
    }
}

/// The text that is parsed to find the shape of a closure: `var _x = {expr};`.
pub open spec fn probe_decl(e: Seq<char>) -> Seq<char> {
    "var _x = "@ + e + ";"@
}

/// A closure with the reads of its captured identifiers prepended to its body:
/// an arrow with an expression body becomes an arrow with a block that reads
/// the captures and returns the expression; a block arrow or a function gets
/// the reads right after its opening `{`; anything else, and any closure when
/// nothing is captured, stays as it is.
pub open spec fn with_captures_spec(e: Seq<char>, names: Seq<Seq<char>>, shape: Option<ExprShape>) -> Seq<
    char,
> {
    if names.len() == 0 {
        e
    } else {
        let caps = read_captures_spec(names);
        match shape {
            Some(ExprShape::ConciseArrow) => "("@ + arrow_params_spec(e) + ") => {\n"@ + caps
                + "return "@ + arrow_concise_body_spec(e) + ";\n}"@,
            Some(ExprShape::BlockArrow) => prepend_block_arrow_spec(e, caps),
            Some(ExprShape::Function) => prepend_function_body_spec(e, caps),
            None => e,
        }
    }
}

/// Prepend the capture reads of `scoped_idents` to the closure `expr_code`,
/// whose shape oxc found to be `shape`.
pub fn with_captures(expr_code: &str, scoped_idents: &[String], shape: Option<ExprShape>) -> (r:
    String)
    requires
        expr_code@.len() < 0x8000_0000,
    ensures
        r@ == with_captures_spec(expr_code@, views(scoped_idents@), shape),
{
    if scoped_idents.len() == 0 {
        return String::from_str(expr_code);
    }
    let captures = read_captures(scoped_idents);
    match shape {
        Some(ExprShape::ConciseArrow) => {
            let body = extract_arrow_concise_body(expr_code);
            let params = extract_arrow_params(expr_code);
            let mut r = String::from_str("(");
            r.append(params.as_str());
            r.append(") => {\n");
            r.append(captures.as_str());
            r.append("return ");
            r.append(body.as_str());
            r.append(";\n}");
            r
        },
        Some(ExprShape::BlockArrow) => prepend_into_block_arrow(expr_code, captures.as_str()),
        Some(ExprShape::Function) => prepend_into_function_body(expr_code, captures.as_str()),
        None => String::from_str(expr_code),
    }
}

/// Prepend the capture reads of `scoped_idents` to the closure `expr_code`
/// (unchanged when nothing is captured), after asking oxc for its shape.
pub fn transform_function_expr(expr_code: &str, scoped_idents: &[String]) -> (r: String)
    requires
        expr_code@.len() < 0x8000_0000,
    ensures
        scoped_idents@.len() == 0 ==> r@ == expr_code@,
        scoped_idents@.len() > 0 ==> r@ == with_captures_spec(
            expr_code@,
            views(scoped_idents@),
            oxc_initializer_shape(probe_decl(expr_code@)),
        ),
{
    if scoped_idents.len() == 0 {
        return String::from_str(expr_code);
    }
    let mut wrapped = String::from_str("var _x = ");
    wrapped.append(expr_code);
    wrapped.append(";");
    let shape = initializer_shape(wrapped.as_str());
    with_captures(expr_code, scoped_idents, shape)
}

/// What oxc's parser (as `SourceType::mjs`) followed by its code generator
/// makes of `raw`: `None` when the parser panics, else the printed code and,
/// when a source map path is given, the source map as JSON.
pub uninterp spec fn oxc_reprint(raw: Seq<char>, map_path: Option<Seq<char>>) -> Option<
    (Seq<char>, Option<Seq<char>>),
>;

/// Parse `raw` with `oxc::parser::Parser` and print it with
/// `oxc::codegen::Codegen`, with a source map for `map_path` when given. The
/// contract names the result, and states what `Codegen::build` shows: without
/// a source map path it builds no map.
#[verifier::external_body]
fn reprint_module(raw: &str, map_path: Option<&str>) -> (r: Option<(String, Option<String>)>)
    ensures
        match r {
            Some((c, m)) => oxc_reprint(raw@, opt_view(map_path)) == Some((c@, opt_string_view(m))),
            None => oxc_reprint(raw@, opt_view(map_path)) is None,
        },
        map_path is None ==> (r matches Some((_, m)) ==> m is None),
{
    let allocator = Allocator::default();
    let ret = Parser::new(&allocator, raw, SourceType::mjs()).parse();
    if ret.panicked {
        return None;
    }
    let options = CodegenOptions { source_map_path: map_path.map(PathBuf::from), ..Default::default() };
    let result = Codegen::new().with_options(options).with_source_text(raw).build(&ret.program);
    Some((result.code, result.map.map(|sm| sm.to_json_string())))
}

/// The final code and map of a segment module from what oxc printed: the raw
/// code with no map when the parser gave up.
pub fn segment_output(raw_code: &str, reprinted: Option<(String, Option<String>)>) -> (r: (
    String,
    Option<String>,
))
    ensures
        match reprinted {
            Some((c, m)) => r.0@ == c@ && opt_string_view(r.1) == opt_string_view(m),
            None => r.0@ == raw_code@ && r.1 is None,
        },
{
    match reprinted {
        Some((c, m)) => (c, m),
        None => (String::from_str(raw_code), None),
    }
}

/// Normalise an assembled segment module through oxc's parser and code
/// generator, with a source map named after `filename` when `source_maps` is
/// on; the raw code comes back unchanged when the parser gives up.
pub fn emit_segment(raw_code: &str, filename: &str, source_maps: bool) -> (r: (String, Option<String>))
    ensures
        match oxc_reprint(raw_code@, if source_maps { Some(filename@) } else { None }) {
            Some((c, m)) => r.0@ == c && opt_string_view(r.1) == m,
            None => r.0@ == raw_code@ && r.1 is None,
        },
        !source_maps ==> r.1 is None,
{
    let map_path = if source_maps {
        Some(filename)
    } else {
        None
    };
    let reprinted = reprint_module(raw_code, map_path);
    segment_output(raw_code, reprinted)
}

} // verus!
