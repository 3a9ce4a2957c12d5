//! What deriving `Switch` for a struct or an enum decides: which field each
//! capture of a pattern is read into and written from.

use vstd::prelude::*;
use crate::decimal::{decimal_text, write_decimal};
use crate::matcher::{MatcherSettings, RouteMatcher};
use crate::optimizer::{OptimizedToken, TokenSpec, tokens_view};
use crate::route::Route;
use crate::switch::Switch;

verus! {

/// How the fields of a struct or of a variant are named.
#[derive(Debug, Clone, Copy, PartialEq, Eq, Structural)]
pub enum FieldNamingScheme {
    /// Fields with names.
    Named,
    /// Fields that are numbered.
    Unnamed,
    /// No fields.
    Unit,
}

/// The fields of a struct or of a variant: their names, or how many there
/// are.
#[derive(Debug, PartialEq, Eq)]
pub enum Fields {
    /// Fields with names, in the order in which they are declared.
    Named(Vec<String>),
    /// As many fields without names.
    Unnamed(usize),
    /// No fields.
    Unit,
}

impl Fields {
    /// How the fields are named.
    pub fn naming_scheme(&self) -> (r: FieldNamingScheme)
        ensures
            r == scheme_of(*self),
    {
        match self {
            Fields::Named(_) => FieldNamingScheme::Named,
            Fields::Unnamed(_) => FieldNamingScheme::Unnamed,
            Fields::Unit => FieldNamingScheme::Unit,
        }
    }
}

/// The field that a token is written from.
#[derive(Debug, Clone, Copy, PartialEq, Eq, Structural)]
pub enum FieldType {
    /// The field with the name of the capture.
    Named,
    /// The field with this number.
    Unnamed { index: usize },
    /// No field.
    Unit,
}

/// The model of a writer.
pub enum FieldWriterSpec {
    /// Writes a literal text.
    Literal(Seq<char>),
    /// Writes the field with this name.
    Named(Seq<char>),
    /// Writes the field with this number.
    Indexed(nat),
}

/// What is written for one token of a pattern.
#[derive(Debug, PartialEq, Eq)]
pub enum FieldWriter {
    /// The literal text of the token.
    Literal(String),
    /// The field with this name.
    Named(String),
    /// The field with this number.
    Indexed(usize),
}

impl View for FieldWriter {
    type V = FieldWriterSpec;

    open spec fn view(&self) -> FieldWriterSpec {
        match self {
            FieldWriter::Literal(text) => FieldWriterSpec::Literal(text@),
            FieldWriter::Named(name) => FieldWriterSpec::Named(name@),
            FieldWriter::Indexed(index) => FieldWriterSpec::Indexed(*index as nat),
        }
    }
}

/// Why a pattern cannot be written from the fields of a type.
#[derive(Debug, Clone, Copy, PartialEq, Eq, Structural)]
pub enum WriterError {
    /// A capture without a name has no field among fields with names.
    UnnamedCapture,
    /// An optional group cannot be written from fields.
    OptionalGroup,
}

/// The writer for `token` where it is written from `field`.
///
/// A literal is written as it is. A capture is written from the field with
/// its name, or from the numbered field; a capture without a name has no
/// field unless the fields are numbered.
pub open spec fn writer_for(token: TokenSpec, field: FieldType) -> Result<
    FieldWriterSpec,
    WriterError,
> {
    match token {
        TokenSpec::Match(text) => Ok(FieldWriterSpec::Literal(text)),
        TokenSpec::Capture(capture) => match field {
            FieldType::Unnamed { index } => Ok(FieldWriterSpec::Indexed(index as nat)),
            _ => match capture.name() {
                Some(name) => Ok(FieldWriterSpec::Named(name)),
                None => Err(WriterError::UnnamedCapture),
            },
        },
        TokenSpec::Optional(_) => Err(WriterError::OptionalGroup),
    }
}

/// Decides what is written for `token` where it is written from the field
/// that `naming_scheme` tells.
pub fn write_for_token(token: &OptimizedToken, naming_scheme: FieldType) -> (r: Result<
    FieldWriter,
    WriterError,
>)
    ensures
        match r {
            Ok(writer) => writer_for(token@, naming_scheme) == Ok::<FieldWriterSpec, WriterError>(
                writer@,
            ),
            Err(e) => writer_for(token@, naming_scheme) == Err::<FieldWriterSpec, WriterError>(e),
        },
{
    match token {
        OptimizedToken::Match(text) => Ok(FieldWriter::Literal(text.clone())),
        OptimizedToken::Capture(capture) => match naming_scheme {
            FieldType::Unnamed { index } => Ok(FieldWriter::Indexed(index)),
            _ => match crate::matcher::name_of(capture) {
                Some(name) => Ok(FieldWriter::Named(name)),
                None => Err(WriterError::UnnamedCapture),
            },
        },
        OptimizedToken::Optional(_) => Err(WriterError::OptionalGroup),
    }
}

/// The name that stands for the numbered field `index` when a value is taken
/// apart: `__field_` and the number.
pub open spec fn unnamed_field_name(index: nat) -> Seq<char> {
    seq!['_', '_', 'f', 'i', 'e', 'l', 'd', '_'] + decimal_text(index)
}

/// The name that stands for the numbered field `index`.
pub fn unnamed_field_index_item(index: usize) -> (r: String)
    ensures
        r@ == unnamed_field_name(index as nat),
{
    proof {
        reveal_strlit("__field_");
    }
    let mut name = String::from_str("__field_");
    assert(name@ =~= seq!['_', '_', 'f', 'i', 'e', 'l', 'd', '_']);
    write_decimal(&mut name, index as u128);
    name
}

/// The option inside an option, or none.
pub trait Flatten<T> {
    /// Takes one layer of `Option` away.
    fn flatten_stable(self) -> Option<T>;
}

impl<T> Flatten<T> for Option<Option<T>> {
    fn flatten_stable(self) -> (r: Option<T>)
        ensures
            r == match self {
                None => None,
                Some(v) => v,
            },
    {
        match self {
            None => None,
            Some(v) => v,
        }
    }
}

/// The matcher that a derived type matches routes with: the tokens of its
/// pattern, compared without regard to case.
pub fn build_matcher_from_tokens(tokens: Vec<OptimizedToken>) -> (r: RouteMatcher)
    ensures
        r.tokens == tokens,
        r.settings.case_insensitive,
{
    let settings = MatcherSettings { case_insensitive: true };
    RouteMatcher { tokens, settings }
}

/// What deriving needs to know of a struct or of a variant of an enum.
#[derive(Debug, PartialEq, Eq)]
pub struct SwitchItem {
    /// The tokens of the pattern of the item.
    pub matcher: Vec<OptimizedToken>,
    /// The name of the struct or of the variant.
    pub ident: String,
    /// The fields of the item.
    pub fields: Fields,
}

/// How a struct or a variant is written into a route.
#[derive(Debug, PartialEq, Eq)]
pub struct ItemSerializer {
    /// The name of the struct or of the variant.
    pub ident: String,
    /// The names that its fields are bound to when it is taken apart.
    pub field_names: Vec<String>,
    /// What is written, token after token.
    pub writers: Vec<FieldWriter>,
}

/// The models of writers.
pub open spec fn writers_view(writers: Seq<FieldWriter>) -> Seq<FieldWriterSpec> {
    writers.map_values(|w: FieldWriter| w@)
}

/// The field that the `i`-th token is written from when `count` captures
/// stand before it: among numbered fields a capture is written from the
/// field with its number among the captures, and anything else from none.
pub open spec fn field_for(token: TokenSpec, scheme: FieldNamingScheme, count: nat) -> FieldType {
    match scheme {
        FieldNamingScheme::Named => FieldType::Named,
        FieldNamingScheme::Unit => FieldType::Unit,
        FieldNamingScheme::Unnamed => {
            if token is Capture {
                FieldType::Unnamed { index: count as usize }
            } else {
                FieldType::Unit
            }
        },
    }
}

/// The writers for the tokens from the `i`-th on, where `count` captures
/// stand before them, or what makes the first of them that has none
/// impossible.
pub open spec fn writers_from(
    tokens: Seq<TokenSpec>,
    i: int,
    scheme: FieldNamingScheme,
    count: nat,
) -> Result<Seq<FieldWriterSpec>, WriterError>
    decreases tokens.len() - i,
{
    if i < 0 || i >= tokens.len() {
        Ok(Seq::empty())
    } else {
        match writer_for(tokens[i], field_for(tokens[i], scheme, count)) {
            Err(e) => Err(e),
            Ok(writer) => {
                let counted = if tokens[i] is Capture {
                    count + 1
                } else {
                    count
                };
                match writers_from(tokens, i + 1, scheme, counted) {
                    Ok(rest) => Ok(seq![writer] + rest),
                    Err(e) => Err(e),
                }
            },
        }
    }
}

/// The names that the fields are bound to: their own names, or, for numbered
/// fields, the names that stand for their numbers.
pub open spec fn bound_names(fields: Fields) -> Seq<Seq<char>> {
    match fields {
        Fields::Named(names) => names@.map_values(|name: String| name@),
        Fields::Unnamed(count) => Seq::new(count as nat, |k: int| unnamed_field_name(k as nat)),
        Fields::Unit => Seq::empty(),
    }
}

/// The writers for `tokens` with fields that are named as `scheme` tells.
pub fn writers_for_tokens(tokens: &Vec<OptimizedToken>, scheme: FieldNamingScheme) -> (r: Result<
    Vec<FieldWriter>,
    WriterError,
>)
    ensures
        match r {
            Ok(writers) => writers_from(tokens_view(tokens@), 0, scheme, 0) == Ok::<
                Seq<FieldWriterSpec>,
                WriterError,
            >(writers_view(writers@)),
            Err(e) => writers_from(tokens_view(tokens@), 0, scheme, 0) == Err::<
                Seq<FieldWriterSpec>,
                WriterError,
            >(e),
        },
{
    let ghost model = tokens_view(tokens@);
    let mut writers: Vec<FieldWriter> = Vec::new();
    let mut item_count: usize = 0;
    let mut i: usize = 0;
    assert(writers_view(writers@) =~= Seq::<FieldWriterSpec>::empty());
    while i < tokens.len()
        invariant
            i <= tokens.len(),
            item_count <= i,
            model == tokens_view(tokens@),
            match writers_from(model, i as int, scheme, item_count as nat) {
                Ok(rest) => writers_from(model, 0, scheme, 0) == Ok::<
                    Seq<FieldWriterSpec>,
                    WriterError,
                >(writers_view(writers@) + rest),
                Err(e) => writers_from(model, 0, scheme, 0) == Err::<
                    Seq<FieldWriterSpec>,
                    WriterError,
                >(e),
            },
        decreases tokens.len() - i,
    {
        assert(model[i as int] == tokens@[i as int]@);
        let is_capture = match &tokens[i] {
            OptimizedToken::Capture(_) => true,
            _ => false,
        };
        let field = match scheme {
            FieldNamingScheme::Named => FieldType::Named,
            FieldNamingScheme::Unit => FieldType::Unit,
            FieldNamingScheme::Unnamed => {
                if is_capture {
                    FieldType::Unnamed { index: item_count }
                } else {
                    FieldType::Unit
                }
            },
        };
        match write_for_token(&tokens[i], field) {
            Err(e) => {
                return Err(e);
            },
            Ok(writer) => {
                proof {
                    let counted: nat = if is_capture {
                        (item_count + 1) as nat
                    } else {
                        item_count as nat
                    };
                    if let Ok(rest) = writers_from(model, i + 1, scheme, counted) {
                        assert(writers_view(writers@) + (seq![writer@] + rest) =~= writers_view(
                            writers@.push(writer),
                        ) + rest);
                    }
                }
                writers.push(writer);
                if is_capture {
                    item_count += 1;
                }
            },
        }
        i += 1;
    }
    assert(writers_view(writers@) + Seq::<FieldWriterSpec>::empty() =~= writers_view(writers@));
    Ok(writers)
}

/// The names that the fields are bound to when a value is taken apart.
pub fn field_names(fields: &Fields) -> (r: Vec<String>)
    ensures
        r@.map_values(|name: String| name@) == bound_names(*fields),
{
    let mut names: Vec<String> = Vec::new();
    match fields {
        Fields::Named(own) => {
            let mut i: usize = 0;
            while i < own.len()
                invariant
                    i <= own.len(),
                    names.len() == i,
                    forall|k: int| 0 <= k < i ==> names@[k]@ == own@[k]@,
                decreases own.len() - i,
            {
                names.push(own[i].clone());
                i += 1;
            }
            assert(names@.map_values(|name: String| name@) =~= bound_names(*fields));
        },
        Fields::Unnamed(count) => {
            let mut i: usize = 0;
            while i < *count
                invariant
                    i <= *count,
                    names.len() == i,
                    forall|k: int| 0 <= k < i ==> names@[k]@ == unnamed_field_name(k as nat),
                decreases *count - i,
            {
                names.push(unnamed_field_index_item(i));
                i += 1;
            }
            assert(names@.map_values(|name: String| name@) =~= bound_names(*fields));
        },
        Fields::Unit => {
            assert(names@.map_values(|name: String| name@) =~= bound_names(*fields));
        },
    }
    names
}

/// Whether `serializer` writes `item`: under its name, with its fields bound
/// and the writers of its tokens.
pub open spec fn serializes(serializer: ItemSerializer, item: SwitchItem) -> bool {
    &&& serializer.ident@ == item.ident@
    &&& serializer.field_names@.map_values(|name: String| name@) == bound_names(item.fields)
    &&& writers_from(tokens_view(item.matcher@), 0, scheme_of(item.fields), 0) == Ok::<
        Seq<FieldWriterSpec>,
        WriterError,
    >(writers_view(serializer.writers@))
}

/// How `fields` are named.
pub open spec fn scheme_of(fields: Fields) -> FieldNamingScheme {
    match fields {
        Fields::Named(_) => FieldNamingScheme::Named,
        Fields::Unnamed(_) => FieldNamingScheme::Unnamed,
        Fields::Unit => FieldNamingScheme::Unit,
    }
}

/// Decides how a struct or a variant is written: literals as they are, each
/// capture from the field with its name or, among numbered fields, from the
/// field with its number among the captures. Fails where a token has no
/// writer.
pub fn build_serializer_for_item(item: &SwitchItem) -> (r: Result<ItemSerializer, WriterError>)
    ensures
        match r {
            Ok(serializer) => serializes(serializer, *item),
            Err(e) => writers_from(
                tokens_view(item.matcher@),
                0,
                scheme_of(item.fields),
                0,
            ) == Err::<Seq<FieldWriterSpec>, WriterError>(e),
        },
{
    let scheme = item.fields.naming_scheme();
    match writers_for_tokens(&item.matcher, scheme) {
        Ok(writers) => Ok(
            ItemSerializer {
                ident: item.ident.clone(),
                field_names: field_names(&item.fields),
                writers,
            },
        ),
        Err(e) => Err(e),
    }
}

/// Decides how the variants of an enum are written, one serializer for each
/// in their order. Fails with what the first variant that cannot be written
/// fails with.
pub fn build_serializer_for_enum(switch_items: &Vec<SwitchItem>) -> (r: Result<
    Vec<ItemSerializer>,
    WriterError,
>)
    ensures
        match r {
            Ok(serializers) => {
                &&& serializers.len() == switch_items.len()
                &&& forall|k: int|
                    0 <= k < serializers.len() ==> serializes(
                        #[trigger] serializers@[k],
                        switch_items@[k],
                    )
            },
            Err(e) => exists|k: int|
                {
                    &&& 0 <= k < switch_items.len()
                    &&& #[trigger] writers_from(
                        tokens_view(switch_items@[k].matcher@),
                        0,
                        scheme_of(switch_items@[k].fields),
                        0,
                    ) == Err::<Seq<FieldWriterSpec>, WriterError>(e)
                    &&& forall|j: int|
                        0 <= j < k ==> (#[trigger] writers_from(
                            tokens_view(switch_items@[j].matcher@),
                            0,
                            scheme_of(switch_items@[j].fields),
                            0,
                        )) is Ok
                },
        },
{
    let mut serializers: Vec<ItemSerializer> = Vec::new();
    let mut i: usize = 0;
    while i < switch_items.len()
        invariant
            i <= switch_items.len(),
            serializers.len() == i,
            forall|k: int|
                0 <= k < i ==> serializes(#[trigger] serializers@[k], switch_items@[k]),
        decreases switch_items.len() - i,
    {
        match build_serializer_for_item(&switch_items[i]) {
            Ok(serializer) => {
                serializers.push(serializer);
            },
            Err(e) => {
                assert forall|j: int| 0 <= j < i implies (#[trigger] writers_from(
                    tokens_view(switch_items@[j].matcher@),
                    0,
                    scheme_of(switch_items@[j].fields),
                    0,
                )) is Ok by {
                    assert(serializes(serializers@[j], switch_items@[j]));
                }
                return Err(e);
            },
        }
        i += 1;
    }
    Ok(serializers)
}

/// Where a struct takes the values of its fields from.
#[derive(Debug, PartialEq, Eq)]
pub enum StructFromCaptures {
    /// From the map of captures: each field takes the value under its name
    /// out of the map.
    Named { keys: Vec<String> },
    /// From the list of captures: each of so many fields takes the next
    /// value.
    Unnamed { count: usize },
    /// From no capture: the route only has to match.
    Unit,
}

/// Decides where the fields of a struct take their values from: fields with
/// names from the map of captures, by name; numbered fields from the list of
/// captures, in order.
pub fn build_struct_from_captures(fields: &Fields) -> (r: StructFromCaptures)
    ensures
        match (*fields, r) {
            (Fields::Named(names), StructFromCaptures::Named { keys }) => keys@.map_values(
                |key: String| key@,
            ) == names@.map_values(|name: String| name@),
            (Fields::Unnamed(fields), StructFromCaptures::Unnamed { count }) => count == fields,
            (Fields::Unit, StructFromCaptures::Unit) => true,
            _ => false,
        },
{
    match fields {
        Fields::Named(names) => {
            let keys = field_names(fields);
            StructFromCaptures::Named { keys }
        },
        Fields::Unnamed(count) => StructFromCaptures::Unnamed { count: *count },
        Fields::Unit => StructFromCaptures::Unit,
    }
}

/// Reads a field from the value that was captured for it, or lets the type
/// of the field stand in where none was. The state is handed on as reading
/// hands it on.
pub fn field_from_capture<F: Switch, T>(value: Option<String>, state: Option<T>) -> (r: (
    Option<F>,
    Option<T>,
))
    ensures
        match value {
            Some(text) => {
                &&& r.0 is Some <==> F::reading(text@).accepted
                &&& r.0 matches Some(read) ==> F::reads_as(text@, read)
                &&& r.1 == (if F::reading(text@).keeps_state {
                    state
                } else {
                    None
                })
            },
            None => call_ensures(F::key_not_available, (), r.0) && r.1 == state,
        },
{
    match value {
        Some(value) => F::from_route_part(Route { route: value, state }),
        None => (F::key_not_available(), state),
    }
}

} // verus!
