//! Parser for ROS 2 `.msg`, `.srv`, and `.action` interface definitions.
use vstd::prelude::*;
use vstd::slice::{slice_subrange, slice_to_vec};
use crate::datatype::{BaseModel, BaseType, FieldType, Multiplicity, Primitive, TypeModel};
use crate::interface::{
    constants_of, fields_of, ActionModel, ActionSpec, Constant, ConstantModel, Field, FieldModel,
    MessageModel, MessageSpec, ServiceModel, ServiceSpec,
};
use crate::text::{
    begins, concat2, concat3, find, find_char, find_last, join, join_chars, lemma_pieces_push,
    lines, parse_unsigned, pieces, push_all, quote, quoted, rfind, same_chars, split, split_char, split_lines,
    split_words, starts_with, to_chars, to_text, trim, trimmed, unsigned_value, word_end, word_len,
    words,
};

verus! {

/// Errors raised while parsing an interface definition.
#[derive(Debug, PartialEq)]
pub enum ParseError {
    /// The line is neither a field nor a constant.
    InvalidLine(String),
    /// The type token is not a type.
    InvalidType(String),
    /// The array suffix or sequence bound is malformed.
    InvalidArray(String),
}

/// A parse error as mathematics.
pub ghost enum ParseFault {
    InvalidLine(Seq<char>),
    InvalidType(Seq<char>),
    InvalidArray(Seq<char>),
}

impl View for ParseError {
    type V = ParseFault;

    open spec fn view(&self) -> ParseFault {
        match self {
            ParseError::InvalidLine(s) => ParseFault::InvalidLine(s@),
            ParseError::InvalidType(s) => ParseFault::InvalidType(s@),
            ParseError::InvalidArray(s) => ParseFault::InvalidArray(s@),
        }
    }
}

impl ParseError {
    /// The error in words.
    pub open spec fn text(&self) -> Seq<char> {
        match self {
            ParseError::InvalidLine(s) => "invalid field/constant line: "@ + quoted(s@),
            ParseError::InvalidType(s) => "invalid type token: "@ + quoted(s@),
            ParseError::InvalidArray(s) => "invalid array specifier: "@ + quoted(s@),
        }
    }

    /// The error in words.
    pub fn message(&self) -> (r: String)
        ensures
            r@ == self.text(),
    {
        match self {
            ParseError::InvalidLine(s) => concat2(
                "invalid field/constant line: ",
                quote(s.as_str()).as_str(),
            ),
            ParseError::InvalidType(s) => concat2(
                "invalid type token: ",
                quote(s.as_str()).as_str(),
            ),
            ParseError::InvalidArray(s) => concat2(
                "invalid array specifier: ",
                quote(s.as_str()).as_str(),
            ),
        }
    }
}

/// A referenced type name in `package/msg/Type` form: `Header` is
/// `std_msgs/msg/Header`, a bare name belongs to `pkg`, `p/Type` gets the kind
/// `msg`, and a name of three or more parts stays as it is.
pub open spec fn full_type_name(raw: Seq<char>, pkg: Seq<char>) -> Seq<char> {
    let parts = split(raw, '/');
    if parts.len() == 1 {
        if parts[0] == "Header"@ {
            "std_msgs/msg/Header"@
        } else {
            pkg + "/msg/"@ + parts[0]
        }
    } else if parts.len() == 2 {
        parts[0] + "/msg/"@ + parts[1]
    } else {
        raw
    }
}

/// Normalizes a referenced type name to `package/msg/Type` form.
///
/// * `Header` (no slash) is special-cased to `std_msgs/msg/Header`.
/// * A bare `Type` resolves within `current_pkg`.
/// * `pkg/Type` is expanded to `pkg/msg/Type`.
/// * `pkg/msg/Type` (already qualified) is returned as-is.
pub fn normalize_type_name(raw: &str, current_pkg: &str) -> (r: String)
    ensures
        r@ == full_type_name(raw@, current_pkg@),
{
    let chars = to_chars(raw);
    let parts = split_char(chars.as_slice(), '/');
    let ghost p = pieces(parts@);
    if parts.len() == 1 {
        let name = to_text(parts[0].as_slice());
        assert(p[0] == parts@[0]@);
        if crate::text::same_text(name.as_str(), "Header") {
            "std_msgs/msg/Header".to_owned()
        } else {
            concat3(current_pkg, "/msg/", name.as_str())
        }
    } else if parts.len() == 2 {
        assert(p[0] == parts@[0]@ && p[1] == parts@[1]@);
        concat3(to_text(parts[0].as_slice()).as_str(), "/msg/", to_text(parts[1].as_slice()).as_str())
    } else {
        raw.to_owned()
    }
}

/// Normalizing a type name twice is normalizing it once, whatever the packages.
pub proof fn full_type_name_is_idempotent(raw: Seq<char>, pkg: Seq<char>, other: Seq<char>)
    ensures
        full_type_name(full_type_name(raw, pkg), other) == full_type_name(raw, pkg),
{
    let parts = split(raw, '/');
    reveal_strlit("Header");
    reveal_strlit("std_msgs/msg/Header");
    if parts.len() == 1 {
        lemma_three_parts(pkg, parts[0]);
        lemma_three_parts("std_msgs"@, "Header"@);
        reveal_strlit("std_msgs");
        reveal_strlit("/msg/");
        assert("std_msgs"@ + "/msg/"@ + "Header"@ =~= "std_msgs/msg/Header"@);
    } else if parts.len() == 2 {
        lemma_three_parts(parts[0], parts[1]);
    }
}

proof fn lemma_three_parts(a: Seq<char>, b: Seq<char>)
    ensures
        split(a + "/msg/"@ + b, '/').len() >= 3,
{
    reveal_strlit("/msg/");
    let m = seq!['m', 's', 'g'];
    assert(a + "/msg/"@ + b =~= a + seq!['/'] + (m + seq!['/'] + b));
    crate::text::split_at_separator(a, m + seq!['/'] + b, '/');
    crate::text::split_at_separator(m, b, '/');
    crate::text::split_is_not_empty(a, '/');
    crate::text::split_is_not_empty(b, '/');
    crate::text::split_is_not_empty(m, '/');
}

/// The bound that follows the word `string` or `wstring`.
pub open spec fn string_bound(rest: Seq<char>) -> Result<Option<usize>, ParseFault> {
    if rest.len() == 0 {
        Ok(None)
    } else if starts_with(rest, "<="@) {
        match unsigned_value(rest.skip(2), usize::MAX as nat) {
            Some(n) => Ok(Some(n as usize)),
            None => Err(ParseFault::InvalidType("string"@ + rest)),
        }
    } else {
        Err(ParseFault::InvalidType("string"@ + rest))
    }
}

fn parse_string_bound(rest: &[char]) -> (r: Result<Option<usize>, ParseError>)
    ensures
        match r {
            Ok(b) => string_bound(rest@) == Ok::<Option<usize>, ParseFault>(b),
            Err(e) => string_bound(rest@) == Err::<Option<usize>, ParseFault>(e@),
        },
{
    proof {
        reveal_strlit("<=");
    }
    if rest.len() == 0 {
        return Ok(None);
    }
    if begins(rest, "<=") {
        let number = slice_subrange(rest, 2, rest.len());
        assert(number@ =~= rest@.skip(2));
        if let Some(n) = parse_unsigned(number, usize::MAX as u64) {
            return Ok(Some(n as usize));
        }
    }
    Err(ParseError::InvalidType(concat2("string", to_text(rest).as_str())))
}

/// The base type that a token names: a string, a primitive, or a message type.
pub open spec fn base_type(tok: Seq<char>, pkg: Seq<char>) -> Result<BaseModel, ParseFault> {
    if starts_with(tok, "string"@) {
        match string_bound(tok.skip(6)) {
            Ok(b) => Ok(BaseModel::String(b)),
            Err(e) => Err(e),
        }
    } else if starts_with(tok, "wstring"@) {
        match string_bound(tok.skip(7)) {
            Ok(b) => Ok(BaseModel::WString(b)),
            Err(e) => Err(e),
        }
    } else if Primitive::of_token(tok) is Some {
        Ok(BaseModel::Primitive(Primitive::of_token(tok).unwrap()))
    } else if tok.len() == 0 {
        Err(ParseFault::InvalidType(tok))
    } else {
        Ok(BaseModel::Message(full_type_name(tok, pkg)))
    }
}

/// Parses just the base type of a field declaration.
fn parse_base_type(tok: &[char], current_pkg: &str) -> (r: Result<BaseType, ParseError>)
    ensures
        match r {
            Ok(b) => base_type(tok@, current_pkg@) == Ok::<BaseModel, ParseFault>(b@),
            Err(e) => base_type(tok@, current_pkg@) == Err::<BaseModel, ParseFault>(e@),
        },
{
    proof {
        reveal_strlit("string");
        reveal_strlit("wstring");
    }
    if begins(tok, "string") {
        let rest = slice_subrange(tok, 6, tok.len());
        assert(rest@ =~= tok@.skip(6));
        return match parse_string_bound(rest) {
            Ok(b) => Ok(BaseType::String(b)),
            Err(e) => Err(e),
        };
    }
    if begins(tok, "wstring") {
        let rest = slice_subrange(tok, 7, tok.len());
        assert(rest@ =~= tok@.skip(7));
        return match parse_string_bound(rest) {
            Ok(b) => Ok(BaseType::WString(b)),
            Err(e) => Err(e),
        };
    }
    let name = to_text(tok);
    if let Some(p) = Primitive::from_token(name.as_str()) {
        return Ok(BaseType::Primitive(p));
    }
    if tok.len() == 0 {
        return Err(ParseError::InvalidType(name));
    }
    Ok(BaseType::Message(normalize_type_name(name.as_str(), current_pkg)))
}

/// The type of one base with a multiplicity, where both could be read.
pub open spec fn sized(
    base: Result<BaseModel, ParseFault>,
    multiplicity: Result<Multiplicity, ParseFault>,
) -> Result<TypeModel, ParseFault> {
    match base {
        Err(e) => Err(e),
        Ok(base) => match multiplicity {
            Err(e) => Err(e),
            Ok(multiplicity) => Ok(TypeModel { base, multiplicity }),
        },
    }
}

/// What stands between `sequence<` and `>`, where the token has that form.
pub open spec fn sequence_body(token: Seq<char>) -> Option<Seq<char>> {
    if starts_with(token, "sequence<"@) && token.len() > 9 && token.last() == '>' {
        Some(token.subrange(9, token.len() - 1))
    } else {
        None
    }
}

/// The multiplicity written between square brackets.
pub open spec fn array_suffix(inside: Seq<char>, token: Seq<char>) -> Result<
    Multiplicity,
    ParseFault,
> {
    if inside.len() == 0 {
        Ok(Multiplicity::UnboundedSequence)
    } else if starts_with(inside, "<="@) {
        match unsigned_value(inside.skip(2), usize::MAX as nat) {
            Some(n) => Ok(Multiplicity::BoundedSequence(n as usize)),
            None => Err(ParseFault::InvalidArray(token)),
        }
    } else {
        match unsigned_value(inside, usize::MAX as nat) {
            Some(n) => Ok(Multiplicity::FixedArray(n as usize)),
            None => Err(ParseFault::InvalidArray(token)),
        }
    }
}

/// The type that a complete token names: `sequence<T>`, `sequence<T, N>`, `T[]`,
/// `T[N]`, `T[<=N]` or `T`.
pub open spec fn field_type(token: Seq<char>, pkg: Seq<char>) -> Result<TypeModel, ParseFault> {
    match sequence_body(token) {
        Some(body) => {
            let comma = rfind(body, ',');
            if comma >= 0 {
                match unsigned_value(trim(body.skip(comma + 1)), usize::MAX as nat) {
                    None => Err(ParseFault::InvalidArray(token)),
                    Some(n) => sized(
                        base_type(trim(body.take(comma)), pkg),
                        Ok(Multiplicity::BoundedSequence(n as usize)),
                    ),
                }
            } else {
                sized(base_type(trim(body), pkg), Ok(Multiplicity::UnboundedSequence))
            }
        },
        None => {
            let open = find(token, '[');
            if open < token.len() {
                if token.last() != ']' {
                    Err(ParseFault::InvalidArray(token))
                } else {
                    sized(
                        base_type(token.take(open), pkg),
                        array_suffix(token.subrange(open + 1, token.len() - 1), token),
                    )
                }
            } else {
                sized(base_type(token, pkg), Ok(Multiplicity::Scalar))
            }
        },
    }
}

fn parse_array_suffix(inside: &[char], token: &[char]) -> (r: Result<Multiplicity, ParseError>)
    ensures
        match r {
            Ok(m) => array_suffix(inside@, token@) == Ok::<Multiplicity, ParseFault>(m),
            Err(e) => array_suffix(inside@, token@) == Err::<Multiplicity, ParseFault>(e@),
        },
{
    proof {
        reveal_strlit("<=");
    }
    if inside.len() == 0 {
        return Ok(Multiplicity::UnboundedSequence);
    }
    if begins(inside, "<=") {
        let number = slice_subrange(inside, 2, inside.len());
        assert(number@ =~= inside@.skip(2));
        return match parse_unsigned(number, usize::MAX as u64) {
            Some(n) => Ok(Multiplicity::BoundedSequence(n as usize)),
            None => Err(ParseError::InvalidArray(to_text(token))),
        };
    }
    match parse_unsigned(inside, usize::MAX as u64) {
        Some(n) => Ok(Multiplicity::FixedArray(n as usize)),
        None => Err(ParseError::InvalidArray(to_text(token))),
    }
}

fn parse_type_token(token: &[char], current_pkg: &str) -> (r: Result<FieldType, ParseError>)
    ensures
        match r {
            Ok(t) => field_type(token@, current_pkg@) == Ok::<TypeModel, ParseFault>(t@),
            Err(e) => field_type(token@, current_pkg@) == Err::<TypeModel, ParseFault>(e@),
        },
{
    proof {
        reveal_strlit("sequence<");
    }
    let n = token.len();
    if begins(token, "sequence<") && n > 9 && token[n - 1] == '>' {
        let body = slice_subrange(token, 9, n - 1);
        return match find_last(body, ',') {
            Some(comma) => {
                let number = slice_subrange(body, comma + 1, body.len());
                let elem = slice_subrange(body, 0, comma);
                assert(number@ =~= body@.skip(comma + 1));
                assert(elem@ =~= body@.take(comma as int));
                match parse_unsigned(trimmed(number), usize::MAX as u64) {
                    None => Err(ParseError::InvalidArray(to_text(token))),
                    Some(bound) => match parse_base_type(trimmed(elem), current_pkg) {
                        Ok(base) => Ok(
                            FieldType {
                                base,
                                multiplicity: Multiplicity::BoundedSequence(bound as usize),
                            },
                        ),
                        Err(e) => Err(e),
                    },
                }
            },
            None => match parse_base_type(trimmed(body), current_pkg) {
                Ok(base) => Ok(FieldType { base, multiplicity: Multiplicity::UnboundedSequence }),
                Err(e) => Err(e),
            },
        };
    }
    let open = find_char(token, '[');
    if open < n {
        if token[n - 1] != ']' {
            return Err(ParseError::InvalidArray(to_text(token)));
        }
        proof {
            crate::text::find_is_first(token@, '[');
        }
        let base_tok = slice_subrange(token, 0, open);
        let inside = slice_subrange(token, open + 1, n - 1);
        assert(base_tok@ =~= token@.take(open as int));
        let base = match parse_base_type(base_tok, current_pkg) {
            Ok(b) => b,
            Err(e) => {
                return Err(e);
            },
        };
        return match parse_array_suffix(inside, token) {
            Ok(multiplicity) => Ok(FieldType { base, multiplicity }),
            Err(e) => Err(e),
        };
    }
    match parse_base_type(token, current_pkg) {
        Ok(base) => Ok(FieldType { base, multiplicity: Multiplicity::Scalar }),
        Err(e) => Err(e),
    }
}

/// Parses a complete type token including array/sequence suffixes.
pub fn parse_field_type(token: &str, current_pkg: &str) -> (r: Result<FieldType, ParseError>)
    ensures
        match r {
            Ok(t) => field_type(token@, current_pkg@) == Ok::<TypeModel, ParseFault>(t@),
            Err(e) => field_type(token@, current_pkg@) == Err::<TypeModel, ParseFault>(e@),
        },
{
    parse_type_token(to_chars(token).as_slice(), current_pkg)
}

/// A line up to its first `#`.
pub open spec fn before_comment(line: Seq<char>) -> Seq<char> {
    line.take(find(line, '#'))
}

fn strip_comment<'a>(line: &'a [char]) -> (r: &'a [char])
    ensures
        r@ == before_comment(line@),
{
    slice_subrange(line, 0, find_char(line, '#'))
}

/// What one line of a definition declares.
pub ghost enum Declared {
    Nothing,
    Constant(ConstantModel),
    Field(FieldModel),
}

/// What follows the first word of a line, without white space at its ends.
pub open spec fn after_word(line: Seq<char>) -> Seq<char> {
    if word_len(line) < line.len() {
        trim(line.skip(word_len(line) + 1))
    } else {
        Seq::empty()
    }
}

/// The name in `NAME=value`, where the text has that form: what stands before
/// the first `=` is one word.
pub open spec fn constant_name(rest: Seq<char>) -> Option<Seq<char>> {
    let eq = find(rest, '=');
    let name = trim(rest.take(eq));
    if eq < rest.len() && name.len() > 0 && word_len(name) == name.len() {
        Some(name)
    } else {
        None
    }
}

/// The value of a constant. A comment after the value belongs to the value only
/// where the constant is a string.
pub open spec fn constant_value(type_tok: Seq<char>, rest: Seq<char>) -> Seq<char> {
    let value = trim(rest.skip(find(rest, '=') + 1));
    if starts_with(type_tok, "string"@) || starts_with(type_tok, "wstring"@) {
        value
    } else {
        trim(before_comment(value))
    }
}

/// What a line declares: nothing (blank or comment), a constant `TYPE NAME=value`,
/// or a field `TYPE NAME` with an optional default.
pub open spec fn declared(raw: Seq<char>, pkg: Seq<char>) -> Result<Declared, ParseFault> {
    let line = trim(raw);
    let type_tok = line.take(word_len(line));
    let rest = after_word(line);
    if line.len() == 0 || line[0] == '#' {
        Ok(Declared::Nothing)
    } else if rest.len() == 0 {
        Err(ParseFault::InvalidLine(raw))
    } else if constant_name(rest) is Some {
        Ok(
            Declared::Constant(
                ConstantModel {
                    name: constant_name(rest).unwrap(),
                    ty: type_tok,
                    value: constant_value(type_tok, rest),
                },
            ),
        )
    } else {
        let w = words(before_comment(line));
        if w.len() < 2 {
            Err(ParseFault::InvalidLine(raw))
        } else {
            match field_type(w[0], pkg) {
                Err(e) => Err(e),
                Ok(ty) => Ok(
                    Declared::Field(
                        FieldModel {
                            name: w[1],
                            ty,
                            default: if w.len() > 2 {
                                Some(join(w.skip(2), " "@))
                            } else {
                                None
                            },
                        },
                    ),
                ),
            }
        }
    }
}

/// What one line of a definition declares.
enum Declaration {
    Nothing,
    Constant(Constant),
    Field(Field),
}

spec fn declaration_model(d: Declaration) -> Declared {
    match d {
        Declaration::Nothing => Declared::Nothing,
        Declaration::Constant(c) => Declared::Constant(c@),
        Declaration::Field(f) => Declared::Field(f@),
    }
}

fn parse_constant(type_tok: &[char], rest: &[char]) -> (r: Option<Constant>)
    ensures
        match r {
            Some(c) => constant_name(rest@) == Some(c.name@) && c.ty@ == type_tok@ && c.value@
                == constant_value(type_tok@, rest@),
            None => constant_name(rest@) is None,
        },
{
    let eq = find_char(rest, '=');
    if eq >= rest.len() {
        return None;
    }
    let before = slice_subrange(rest, 0, eq);
    let after = slice_subrange(rest, eq + 1, rest.len());
    assert(before@ =~= rest@.take(eq as int));
    assert(after@ =~= rest@.skip(eq + 1));
    let name = trimmed(before);
    if name.len() == 0 || word_end(name) != name.len() {
        return None;
    }
    let value_part = trimmed(after);
    let value = if begins(type_tok, "string") || begins(type_tok, "wstring") {
        value_part
    } else {
        trimmed(strip_comment(value_part))
    };
    Some(Constant { name: to_text(name), ty: to_text(type_tok), value: to_text(value) })
}

fn parse_field(line: &[char], raw: &[char], current_pkg: &str) -> (r: Result<Field, ParseError>)
    ensures
        ({
            let w = words(before_comment(line@));
            match r {
                Ok(f) => {
                    &&& w.len() >= 2
                    &&& f.name@ == w[1]
                    &&& field_type(w[0], current_pkg@) == Ok::<TypeModel, ParseFault>(f.ty@)
                    &&& crate::interface::opt_text(f.default) == (if w.len() > 2 {
                        Some(join(w.skip(2), " "@))
                    } else {
                        None
                    })
                },
                Err(e) => if w.len() < 2 {
                    e@ == ParseFault::InvalidLine(raw@)
                } else {
                    field_type(w[0], current_pkg@) == Err::<TypeModel, ParseFault>(e@)
                },
            }
        }),
{
    let parts = split_words(strip_comment(line));
    let ghost w = words(before_comment(line@));
    assert(pieces(parts@) == w);
    if parts.len() < 2 {
        return Err(ParseError::InvalidLine(to_text(raw)));
    }
    assert(w[0] == parts@[0]@ && w[1] == parts@[1]@);
    let default = if parts.len() > 2 {
        let tail = slice_subrange(parts.as_slice(), 2, parts.len());
        assert(pieces(tail@) =~= w.skip(2));
        Some(to_text(join_chars(tail, to_chars(" ").as_slice()).as_slice()))
    } else {
        None
    };
    match parse_type_token(parts[0].as_slice(), current_pkg) {
        Ok(ty) => Ok(Field { name: to_text(parts[1].as_slice()), ty, default }),
        Err(e) => Err(e),
    }
}

fn parse_line(raw: &[char], current_pkg: &str) -> (r: Result<Declaration, ParseError>)
    ensures
        match r {
            Ok(d) => declared(raw@, current_pkg@) == Ok::<Declared, ParseFault>(
                declaration_model(d),
            ),
            Err(e) => declared(raw@, current_pkg@) == Err::<Declared, ParseFault>(e@),
        },
{
    let line = trimmed(raw);
    if line.len() == 0 || line[0] == '#' {
        return Ok(Declaration::Nothing);
    }
    let k = word_end(line);
    let type_tok = slice_subrange(line, 0, k);
    assert(type_tok@ =~= line@.take(word_len(line@)));
    let rest: &[char] = if k < line.len() {
        let after = slice_subrange(line, k + 1, line.len());
        assert(after@ =~= line@.skip(k + 1));
        trimmed(after)
    } else {
        let none = slice_subrange(line, 0, 0);
        assert(none@ =~= Seq::empty());
        none
    };
    assert(rest@ == after_word(line@));
    if rest.len() == 0 {
        return Err(ParseError::InvalidLine(to_text(raw)));
    }
    if let Some(c) = parse_constant(type_tok, rest) {
        return Ok(Declaration::Constant(c));
    }
    match parse_field(line, raw, current_pkg) {
        Ok(f) => Ok(Declaration::Field(f)),
        Err(e) => Err(e),
    }
}

/// What the lines of a definition declare after `fields` and `constants`, in the
/// order of the lines; the first line in error decides.
pub open spec fn declarations(
    lines: Seq<Seq<char>>,
    pkg: Seq<char>,
    fields: Seq<FieldModel>,
    constants: Seq<ConstantModel>,
) -> Result<(Seq<FieldModel>, Seq<ConstantModel>), ParseFault>
    decreases lines.len(),
{
    if lines.len() == 0 {
        Ok((fields, constants))
    } else {
        match declared(lines[0], pkg) {
            Err(e) => Err(e),
            Ok(Declared::Nothing) => declarations(lines.drop_first(), pkg, fields, constants),
            Ok(Declared::Constant(c)) => declarations(
                lines.drop_first(),
                pkg,
                fields,
                constants.push(c),
            ),
            Ok(Declared::Field(f)) => declarations(
                lines.drop_first(),
                pkg,
                fields.push(f),
                constants,
            ),
        }
    }
}

/// The message that a `.msg` body defines.
pub open spec fn message_model(name: Seq<char>, pkg: Seq<char>, body: Seq<char>) -> Result<
    MessageModel,
    ParseFault,
> {
    match declarations(lines(body), pkg, Seq::empty(), Seq::empty()) {
        Err(e) => Err(e),
        Ok((fields, constants)) => Ok(MessageModel { name, fields, constants }),
    }
}

fn parse_body(name: String, current_pkg: &str, body: &[char]) -> (r: Result<
    MessageSpec,
    ParseError,
>)
    ensures
        match r {
            Ok(m) => message_model(name@, current_pkg@, body@) == Ok::<MessageModel, ParseFault>(
                m@,
            ),
            Err(e) => message_model(name@, current_pkg@, body@) == Err::<MessageModel, ParseFault>(
                e@,
            ),
        },
{
    let rows = split_lines(body);
    let ghost all = lines(body@);
    let mut fields: Vec<Field> = Vec::new();
    let mut constants: Vec<Constant> = Vec::new();
    let n = rows.len();
    assert(fields_of(fields@) =~= Seq::empty());
    assert(constants_of(constants@) =~= Seq::empty());
    assert(all.skip(0) =~= all);
    for i in 0..n
        invariant
            n == rows@.len(),
            pieces(rows@) == all,
            all == lines(body@),
            declarations(all, current_pkg@, Seq::empty(), Seq::empty()) == declarations(
                all.skip(i as int),
                current_pkg@,
                fields_of(fields@),
                constants_of(constants@),
            ),
    {
        let ghost f0 = fields@;
        let ghost c0 = constants@;
        assert(all.skip(i as int)[0] == rows@[i as int]@);
        assert(all.skip(i as int).drop_first() =~= all.skip(i as int + 1));
        match parse_line(rows[i].as_slice(), current_pkg) {
            Err(e) => {
                return Err(e);
            },
            Ok(Declaration::Nothing) => {},
            Ok(Declaration::Constant(c)) => {
                constants.push(c);
                assert(constants_of(constants@) =~= constants_of(c0).push(c@));
            },
            Ok(Declaration::Field(f)) => {
                fields.push(f);
                assert(fields_of(fields@) =~= fields_of(f0).push(f@));
            },
        }
    }
    assert(all.skip(n as int).len() == 0);
    Ok(MessageSpec { name, fields, constants })
}

/// Parses a `.msg` body into a [`MessageSpec`]. `name` is the fully-qualified
/// `package/msg/Type`; `current_pkg` is the package used to resolve relative
/// references.
pub fn parse_message(name: &str, current_pkg: &str, body: &str) -> (r: Result<
    MessageSpec,
    ParseError,
>)
    ensures
        match r {
            Ok(m) => message_model(name@, current_pkg@, body@) == Ok::<MessageModel, ParseFault>(
                m@,
            ),
            Err(e) => message_model(name@, current_pkg@, body@) == Err::<MessageModel, ParseFault>(
                e@,
            ),
        },
{
    parse_body(name.to_owned(), current_pkg, to_chars(body).as_slice())
}

/// The sections of a body after `done`, the last of which is still open. A line
/// that is `---` between white space ends a section; every other line belongs to
/// the open one.
pub open spec fn sections_from(done: Seq<Seq<char>>, lines: Seq<Seq<char>>) -> Seq<Seq<char>>
    decreases lines.len(),
{
    if lines.len() == 0 {
        done
    } else if trim(lines[0]) == "---"@ {
        sections_from(done.push(Seq::empty()), lines.drop_first())
    } else {
        sections_from(
            done.update(done.len() - 1, done.last() + lines[0] + seq!['\n']),
            lines.drop_first(),
        )
    }
}

/// The section of a body with the given index; empty where the body has fewer.
pub open spec fn section(body: Seq<char>, i: int) -> Seq<char> {
    let all = sections_from(seq![Seq::empty()], lines(body));
    if i < all.len() {
        all[i]
    } else {
        Seq::empty()
    }
}

/// Splits a body on lines consisting solely of `---`, and pads with empty
/// sections up to `expected`.
fn split_sections(body: &[char], expected: usize) -> (r: Vec<Vec<char>>)
    ensures
        r@.len() >= expected,
        forall|i: int| 0 <= i < r@.len() ==> (#[trigger] r@[i])@ == section(body@, i),
{
    let rows = split_lines(body);
    let bar = to_chars("---");
    let ghost all = lines(body@);
    let mut sections: Vec<Vec<char>> = Vec::new();
    let first: Vec<char> = Vec::new();
    sections.push(first);
    let n = rows.len();
    assert(all.skip(0) =~= all);
    assert(pieces(sections@) =~= seq![Seq::empty()]);
    for i in 0..n
        invariant
            n == rows@.len(),
            pieces(rows@) == all,
            all == lines(body@),
            bar@ == "---"@,
            sections@.len() > 0,
            sections_from(seq![Seq::empty()], all) == sections_from(
                pieces(sections@),
                all.skip(i as int),
            ),
    {
        let ghost before = sections@;
        let row = rows[i].as_slice();
        assert(all.skip(i as int)[0] == row@);
        assert(all.skip(i as int).drop_first() =~= all.skip(i as int + 1));
        if same_chars(trimmed(row), bar.as_slice()) {
            let fresh: Vec<char> = Vec::new();
            sections.push(fresh);
            proof {
                lemma_pieces_push(before, fresh);
                assert(pieces(sections@) =~= pieces(before).push(Seq::empty()));
            }
        } else {
            let last: usize = sections.len() - 1;
            let mut text = slice_to_vec(sections[last].as_slice());
            push_all(&mut text, row);
            text.push('\n');
            assert(text@ =~= pieces(before).last() + row@ + seq!['\n']);
            sections.set(last, text);
            assert(pieces(sections@) =~= pieces(before).update(last as int, text@));
        }
    }
    assert(all.skip(n as int).len() == 0);
    let ghost done = pieces(sections@);
    while sections.len() < expected
        invariant
            sections@.len() >= done.len(),
            forall|i: int| 0 <= i < done.len() ==> (#[trigger] sections@[i])@ == done[i],
            forall|i: int|
                done.len() <= i < sections@.len() ==> (#[trigger] sections@[i])@ == Seq::<
                    char,
                >::empty(),
        decreases expected - sections.len(),
    {
        let fresh: Vec<char> = Vec::new();
        sections.push(fresh);
    }
    sections
}

/// The service that a `.srv` body defines.
pub open spec fn service_model(name: Seq<char>, pkg: Seq<char>, body: Seq<char>) -> Result<
    ServiceModel,
    ParseFault,
> {
    match message_model(name + "_Request"@, pkg, section(body, 0)) {
        Err(e) => Err(e),
        Ok(request) => match message_model(name + "_Response"@, pkg, section(body, 1)) {
            Err(e) => Err(e),
            Ok(response) => Ok(ServiceModel { name, request, response }),
        },
    }
}

/// Splits a `.srv` body into request and response on the `---` separator and
/// parses each half.
pub fn parse_service(name: &str, current_pkg: &str, body: &str) -> (r: Result<
    ServiceSpec,
    ParseError,
>)
    ensures
        match r {
            Ok(s) => service_model(name@, current_pkg@, body@) == Ok::<ServiceModel, ParseFault>(
                s@,
            ),
            Err(e) => service_model(name@, current_pkg@, body@) == Err::<ServiceModel, ParseFault>(
                e@,
            ),
        },
{
    let sections = split_sections(to_chars(body).as_slice(), 2);
    let request = match parse_body(concat2(name, "_Request"), current_pkg, sections[0].as_slice()) {
        Ok(m) => m,
        Err(e) => {
            return Err(e);
        },
    };
    let response = match parse_body(
        concat2(name, "_Response"),
        current_pkg,
        sections[1].as_slice(),
    ) {
        Ok(m) => m,
        Err(e) => {
            return Err(e);
        },
    };
    Ok(ServiceSpec { name: name.to_owned(), request, response })
}

/// The action that a `.action` body defines.
pub open spec fn action_model(name: Seq<char>, pkg: Seq<char>, body: Seq<char>) -> Result<
    ActionModel,
    ParseFault,
> {
    match message_model(name + "_Goal"@, pkg, section(body, 0)) {
        Err(e) => Err(e),
        Ok(goal) => match message_model(name + "_Result"@, pkg, section(body, 1)) {
            Err(e) => Err(e),
            Ok(result) => match message_model(name + "_Feedback"@, pkg, section(body, 2)) {
                Err(e) => Err(e),
                Ok(feedback) => Ok(ActionModel { name, goal, result, feedback }),
            },
        },
    }
}

/// Splits a `.action` body into goal/result/feedback on `---` separators.
pub fn parse_action(name: &str, current_pkg: &str, body: &str) -> (r: Result<
    ActionSpec,
    ParseError,
>)
    ensures
        match r {
            Ok(a) => action_model(name@, current_pkg@, body@) == Ok::<ActionModel, ParseFault>(a@),
            Err(e) => action_model(name@, current_pkg@, body@) == Err::<ActionModel, ParseFault>(
                e@,
            ),
        },
{
    let sections = split_sections(to_chars(body).as_slice(), 3);
    let goal = match parse_body(concat2(name, "_Goal"), current_pkg, sections[0].as_slice()) {
        Ok(m) => m,
        Err(e) => {
            return Err(e);
        },
    };
    let result = match parse_body(concat2(name, "_Result"), current_pkg, sections[1].as_slice()) {
        Ok(m) => m,
        Err(e) => {
            return Err(e);
        },
    };
    let feedback = match parse_body(
        concat2(name, "_Feedback"),
        current_pkg,
        sections[2].as_slice(),
    ) {
        Ok(m) => m,
        Err(e) => {
            return Err(e);
        },
    };
    Ok(ActionSpec { name: name.to_owned(), goal, result, feedback })
}

} // verus!
