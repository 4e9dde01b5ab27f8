//! Field values: the typed contents of packets, each with a kind that says
//! how it is read and written. Composite fields (item stacks, entity
//! properties, statistics, game profiles) are fixed sequences of the codec's
//! primitives.
use vstd::prelude::*;
use crate::codec::{
    Parsed,
    parsed_as,
    parsed_view,
    varint_bytes,
    parse_varint,
    read_varint,
    write_varint,
    parse_u8,
    parse_bool,
    bool_bytes,
    parse_u16,
    parse_i16,
    parse_i32,
    parse_u32,
    parse_i64,
    parse_u64,
    u16_bytes,
    i16_bytes,
    i32_bytes,
    u32_bytes,
    i64_bytes,
    u64_bytes,
    read_u8_async,
    read_bool,
    write_bool,
    write_u8_async,
    read_u16_be,
    write_u16_be,
    read_i16_be,
    write_i16_be,
    read_i32_be,
    write_i32_be,
    read_u32,
    write_u32,
    read_i64_be,
    write_i64_be,
    read_u64,
    write_u64,
    parse_string,
    string_bytes,
    string_fits,
    parse_bytes_varint,
    parse_bytes_short,
    parse_bytes_int,
    bytes_varint_bytes,
    bytes_short_bytes,
    bytes_int_bytes,
    read_varstring,
    write_varstring,
    read_bytearray,
    read_bytes_short,
    read_bytes_int,
    write_bytearray,
    write_bytes_short,
    write_bytes_int,
    uuid_bytes,
    parse_uuid,
    read_uuid,
    write_uuid,
    append_bytes,
    lemma_varint_round_trip,
    lemma_string_round_trip,
    lemma_uuid_round_trip,
    lemma_bytes_varint_round_trip,
    lemma_fixed_width_round_trip,
    take_bytes,
};
use crate::error::ProtocolError;

verus! {

/// An inventory slot. An `item_id` of -1 is the empty slot, whose wire form
/// is that id alone.
#[derive(Clone, Copy, Debug, PartialEq, Eq)]
pub struct ItemStack {
    pub item_id: i16,
    pub count: u8,
    pub damage: i16,
}

/// One modifier of an entity attribute; `amount` holds the bits of a 64-bit float.
#[derive(Clone, Copy, Debug, PartialEq, Eq)]
pub struct EntityAttributeModifier {
    pub uuid: u128,
    pub amount: u64,
    pub operation: u8,
}

/// An entity attribute: its key, its base value (bits of a 64-bit float) and
/// its modifiers.
#[derive(Clone, Debug)]
pub struct EntityProperty {
    pub key: String,
    pub value: u64,
    pub modifiers: Vec<EntityAttributeModifier>,
}

/// Named counters, in the order in which they came on the wire.
#[derive(Clone, Debug)]
pub struct Properties(pub Vec<(String, i32)>);

/// A signed property of a game profile; the signature may be absent.
#[derive(Clone, Debug)]
pub struct ProfileProperty {
    pub name: String,
    pub value: String,
    pub signature: Option<String>,
}

/// A player's profile: id (as text), name and properties.
#[derive(Clone, Debug)]
pub struct GameProfile {
    pub id: String,
    pub name: String,
    pub properties: Vec<ProfileProperty>,
}

pub open spec fn option_string_view(o: Option<String>) -> Option<Seq<char>> {
    match o {
        Some(s) => Some(s@),
        None => None,
    }
}

impl View for EntityProperty {
    type V = (Seq<char>, u64, Seq<EntityAttributeModifier>);

    open spec fn view(&self) -> Self::V {
        (self.key@, self.value, self.modifiers@)
    }
}

pub open spec fn stats_view(v: Seq<(String, i32)>) -> Seq<(Seq<char>, i32)> {
    v.map_values(|e: (String, i32)| (e.0@, e.1))
}

impl View for Properties {
    type V = Seq<(Seq<char>, i32)>;

    open spec fn view(&self) -> Self::V {
        stats_view(self.0@)
    }
}

impl View for ProfileProperty {
    type V = (Seq<char>, Seq<char>, Option<Seq<char>>);

    open spec fn view(&self) -> Self::V {
        (self.name@, self.value@, option_string_view(self.signature))
    }
}

impl View for GameProfile {
    type V = (Seq<char>, Seq<char>, Seq<(Seq<char>, Seq<char>, Option<Seq<char>>)>);

    open spec fn view(&self) -> Self::V {
        (self.id@, self.name@, self.properties@.map_values(|p: ProfileProperty| p@))
    }
}

impl Properties {
    /// No counters.
    pub fn new() -> (r: Properties)
        ensures
            r@ == Seq::<(Seq<char>, i32)>::empty(),
    {
        let r = Properties(Vec::new());
        assert(r@ =~= Seq::<(Seq<char>, i32)>::empty());
        r
    }
}

/// How a field is laid out on the wire.
#[derive(Clone, Copy, Debug, PartialEq, Eq, Structural)]
pub enum FieldKind {
    VarInt,
    Text,
    UShort,
    Byte,
    Short,
    Int,
    Long,
    Float,
    Double,
    Boolean,
    BytesVarInt,
    BytesShort,
    BytesInt,
    Uuid,
    Item,
    Items,
    EntityProperties,
    Statistics,
    Profile,
    Unimplemented,
}

/// A field's value. Floats are held as their bit patterns.
#[derive(Clone, Debug)]
pub enum FieldValue {
    VarInt(i32),
    Text(String),
    UShort(u16),
    Byte(u8),
    Short(i16),
    Int(i32),
    Long(i64),
    Float(u32),
    Double(u64),
    Boolean(bool),
    BytesVarInt(Vec<u8>),
    BytesShort(Vec<u8>),
    BytesInt(Vec<u8>),
    Uuid(u128),
    Item(ItemStack),
    Items(Vec<ItemStack>),
    EntityProperties(Vec<EntityProperty>),
    Statistics(Properties),
    Profile(GameProfile),
    Unimplemented(Vec<u8>),
}

/// The mathematical value of a field.
pub enum FieldView {
    VarInt(i32),
    Text(Seq<char>),
    UShort(u16),
    Byte(u8),
    Short(i16),
    Int(i32),
    Long(i64),
    Float(u32),
    Double(u64),
    Boolean(bool),
    BytesVarInt(Seq<u8>),
    BytesShort(Seq<u8>),
    BytesInt(Seq<u8>),
    Uuid(u128),
    Item(ItemStack),
    Items(Seq<ItemStack>),
    EntityProperties(Seq<(Seq<char>, u64, Seq<EntityAttributeModifier>)>),
    Statistics(Seq<(Seq<char>, i32)>),
    Profile((Seq<char>, Seq<char>, Seq<(Seq<char>, Seq<char>, Option<Seq<char>>)>)),
    Unimplemented(Seq<u8>),
}

impl View for FieldValue {
    type V = FieldView;

    open spec fn view(&self) -> FieldView {
        match self {
            FieldValue::VarInt(v) => FieldView::VarInt(*v),
            FieldValue::Text(v) => FieldView::Text(v@),
            FieldValue::UShort(v) => FieldView::UShort(*v),
            FieldValue::Byte(v) => FieldView::Byte(*v),
            FieldValue::Short(v) => FieldView::Short(*v),
            FieldValue::Int(v) => FieldView::Int(*v),
            FieldValue::Long(v) => FieldView::Long(*v),
            FieldValue::Float(v) => FieldView::Float(*v),
            FieldValue::Double(v) => FieldView::Double(*v),
            FieldValue::Boolean(v) => FieldView::Boolean(*v),
            FieldValue::BytesVarInt(v) => FieldView::BytesVarInt(v@),
            FieldValue::BytesShort(v) => FieldView::BytesShort(v@),
            FieldValue::BytesInt(v) => FieldView::BytesInt(v@),
            FieldValue::Uuid(v) => FieldView::Uuid(*v),
            FieldValue::Item(v) => FieldView::Item(*v),
            FieldValue::Items(v) => FieldView::Items(v@),
            FieldValue::EntityProperties(v) => FieldView::EntityProperties(
                v@.map_values(|e: EntityProperty| e@),
            ),
            FieldValue::Statistics(v) => FieldView::Statistics(v@),
            FieldValue::Profile(v) => FieldView::Profile(v@),
            FieldValue::Unimplemented(v) => FieldView::Unimplemented(v@),
        }
    }
}

// ----- repeated items -----

/// `n` items read one after another from `p`.
pub open spec fn parse_repeated<T>(item: spec_fn(Seq<u8>, int) -> Parsed<T>, s: Seq<u8>, p: int, n: nat) -> Parsed<Seq<T>>
    decreases n,
{
    if n == 0 {
        Ok((Seq::empty(), p))
    } else {
        match parse_repeated(item, s, p, (n - 1) as nat) {
            Err(e) => Err(e),
            Ok((xs, q)) => match item(s, q) {
                Err(e) => Err(e),
                Ok((x, q2)) => Ok((xs.push(x), q2)),
            },
        }
    }
}

/// The wire forms of items, one after another.
pub open spec fn repeated_bytes<T>(f: spec_fn(T) -> Seq<u8>, xs: Seq<T>) -> Seq<u8>
    decreases xs.len(),
{
    if xs.len() == 0 {
        Seq::empty()
    } else {
        repeated_bytes(f, xs.drop_last()) + f(xs.last())
    }
}

pub(crate) proof fn lemma_repeated_err<T>(item: spec_fn(Seq<u8>, int) -> Parsed<T>, s: Seq<u8>, p: int, i: nat, n: nat)
    requires
        i <= n,
        parse_repeated(item, s, p, i) is Err,
    ensures
        parse_repeated(item, s, p, n) == parse_repeated(item, s, p, i),
    decreases n,
{
    if n > i {
        lemma_repeated_err(item, s, p, i, (n - 1) as nat);
    }
}

proof fn lemma_repeated_bytes_step<T>(f: spec_fn(T) -> Seq<u8>, xs: Seq<T>, i: int)
    requires
        0 <= i < xs.len(),
    ensures
        repeated_bytes(f, xs.subrange(0, i + 1)) == repeated_bytes(f, xs.subrange(0, i)) + f(xs[i]),
{
    assert(xs.subrange(0, i + 1).drop_last() =~= xs.subrange(0, i));
}

/// A count that is read as a 16-bit integer; a negative count is no items.
pub open spec fn parse_short_count(s: Seq<u8>, p: int) -> Parsed<nat> {
    match parse_i16(s, p) {
        Err(e) => Err(e),
        Ok((n, q)) => Ok((if n < 0 { 0nat } else { n as nat }, q)),
    }
}

/// A count that is read as a variable-length integer; a negative count is
/// malformed.
pub open spec fn parse_varint_count(s: Seq<u8>, p: int) -> Parsed<nat> {
    match parse_varint(s, p) {
        Err(e) => Err(e),
        Ok((n, q)) => if n < 0 {
            Err(ProtocolError::InvalidEncoding)
        } else {
            Ok((n as nat, q))
        },
    }
}

// ----- item stacks -----

pub open spec fn parse_item_stack(s: Seq<u8>, p: int) -> Parsed<ItemStack> {
    match parse_i16(s, p) {
        Err(e) => Err(e),
        Ok((id, q)) => if id == -1 {
            Ok((ItemStack { item_id: -1i16, count: 0u8, damage: 0i16 }, q))
        } else {
            match parse_u8(s, q) {
                Err(e) => Err(e),
                Ok((count, q2)) => match parse_i16(s, q2) {
                    Err(e) => Err(e),
                    Ok((damage, q3)) => Ok((ItemStack { item_id: id, count, damage }, q3)),
                },
            }
        },
    }
}

pub open spec fn item_stack_bytes(it: ItemStack) -> Seq<u8> {
    if it.item_id == -1 {
        i16_bytes(-1i16)
    } else {
        i16_bytes(it.item_id) + seq![it.count] + i16_bytes(it.damage)
    }
}

pub open spec fn item_stack_parser() -> spec_fn(Seq<u8>, int) -> Parsed<ItemStack> {
    |s: Seq<u8>, p: int| parse_item_stack(s, p)
}

pub open spec fn item_stack_writer() -> spec_fn(ItemStack) -> Seq<u8> {
    |it: ItemStack| item_stack_bytes(it)
}

/// A 16-bit count, then that many item stacks.
pub open spec fn parse_item_stacks(s: Seq<u8>, p: int) -> Parsed<Seq<ItemStack>> {
    match parse_short_count(s, p) {
        Err(e) => Err(e),
        Ok((n, q)) => parse_repeated(item_stack_parser(), s, q, n),
    }
}

pub open spec fn item_stacks_bytes(xs: Seq<ItemStack>) -> Seq<u8> {
    i16_bytes(xs.len() as i16) + repeated_bytes(item_stack_writer(), xs)
}

pub fn read_item_stack(buf: &[u8], pos: usize) -> (r: Result<(ItemStack, usize), ProtocolError>)
    ensures
        parsed_as(r, parse_item_stack(buf@, pos as int)),
{
    let (id, q) = read_i16_be(buf, pos)?;
    if id == -1 {
        return Ok((ItemStack { item_id: -1, count: 0, damage: 0 }, q));
    }
    let (count, q2) = read_u8_async(buf, q)?;
    let (damage, q3) = read_i16_be(buf, q2)?;
    Ok((ItemStack { item_id: id, count, damage }, q3))
}

pub fn write_item_stack(out: &mut Vec<u8>, it: ItemStack)
    ensures
        final(out)@ == old(out)@ + item_stack_bytes(it),
{
    if it.item_id == -1 {
        write_i16_be(out, -1);
    } else {
        write_i16_be(out, it.item_id);
        write_u8_async(out, it.count);
        write_i16_be(out, it.damage);
        assert(final(out)@ =~= old(out)@ + item_stack_bytes(it));
    }
}

fn read_short_count(buf: &[u8], pos: usize) -> (r: Result<(usize, usize), ProtocolError>)
    ensures
        match parse_short_count(buf@, pos as int) {
            Ok((n, q)) => r matches Ok((n2, q2)) && n2 as nat == n && q2 == q,
            Err(e) => r == Err::<(usize, usize), ProtocolError>(e),
        },
{
    let (n, q) = read_i16_be(buf, pos)?;
    if n < 0 {
        Ok((0, q))
    } else {
        Ok((n as usize, q))
    }
}

fn read_varint_count(buf: &[u8], pos: usize) -> (r: Result<(usize, usize), ProtocolError>)
    ensures
        match parse_varint_count(buf@, pos as int) {
            Ok((n, q)) => r matches Ok((n2, q2)) && n2 as nat == n && q2 == q,
            Err(e) => r == Err::<(usize, usize), ProtocolError>(e),
        },
{
    let (n, q) = read_varint(buf, pos)?;
    if n < 0 {
        Err(ProtocolError::InvalidEncoding)
    } else {
        Ok((n as usize, q))
    }
}

pub fn read_item_stacks(buf: &[u8], pos: usize) -> (r: Result<(Vec<ItemStack>, usize), ProtocolError>)
    ensures
        parsed_view(r, parse_item_stacks(buf@, pos as int)),
{
    let (n, q0) = read_short_count(buf, pos)?;
    let mut items: Vec<ItemStack> = Vec::new();
    let mut q = q0;
    let mut i: usize = 0;
    while i < n
        invariant
            i <= n,
            parse_short_count(buf@, pos as int) == Ok::<(nat, int), ProtocolError>((n as nat, q0 as int)),
            parse_repeated(item_stack_parser(), buf@, q0 as int, i as nat) == Ok::<(Seq<ItemStack>, int), ProtocolError>(
                (items@, q as int),
            ),
        decreases n - i,
    {
        match read_item_stack(buf, q) {
            Ok((it, q2)) => {
                items.push(it);
                q = q2;
            },
            Err(e) => {
                proof {
                    assert(item_stack_parser()(buf@, q as int) == parse_item_stack(buf@, q as int));
                    assert(parse_repeated(item_stack_parser(), buf@, q0 as int, (i + 1) as nat) == Err::<(Seq<ItemStack>, int), ProtocolError>(e));
                    lemma_repeated_err(item_stack_parser(), buf@, q0 as int, (i + 1) as nat, n as nat);
                }
                return Err(e);
            },
        }
        i = i + 1;
    }
    Ok((items, q))
}

pub fn write_item_stacks(out: &mut Vec<u8>, items: &Vec<ItemStack>)
    requires
        items@.len() <= i16::MAX,
    ensures
        final(out)@ == old(out)@ + item_stacks_bytes(items@),
{
    write_i16_be(out, items.len() as i16);
    let ghost head = out@;
    let mut i: usize = 0;
    while i < items.len()
        invariant
            i <= items@.len(),
            out@ == head + repeated_bytes(item_stack_writer(), items@.subrange(0, i as int)),
        decreases items@.len() - i,
    {
        proof {
            lemma_repeated_bytes_step(item_stack_writer(), items@, i as int);
        }
        write_item_stack(out, items[i]);
        i = i + 1;
    }
    assert(items@.subrange(0, items@.len() as int) =~= items@);
    assert(final(out)@ =~= old(out)@ + item_stacks_bytes(items@));
}

// ----- entity properties -----

pub open spec fn parse_modifier(s: Seq<u8>, p: int) -> Parsed<EntityAttributeModifier> {
    match parse_uuid(s, p) {
        Err(e) => Err(e),
        Ok((uuid, q)) => match parse_u64(s, q) {
            Err(e) => Err(e),
            Ok((amount, q2)) => match parse_u8(s, q2) {
                Err(e) => Err(e),
                Ok((operation, q3)) => Ok((EntityAttributeModifier { uuid, amount, operation }, q3)),
            },
        },
    }
}

pub open spec fn modifier_bytes(m: EntityAttributeModifier) -> Seq<u8> {
    uuid_bytes(m.uuid) + u64_bytes(m.amount) + seq![m.operation]
}

pub open spec fn modifier_parser() -> spec_fn(Seq<u8>, int) -> Parsed<EntityAttributeModifier> {
    |s: Seq<u8>, p: int| parse_modifier(s, p)
}

pub open spec fn modifier_writer() -> spec_fn(EntityAttributeModifier) -> Seq<u8> {
    |m: EntityAttributeModifier| modifier_bytes(m)
}

/// Key, value, a variable-length count, then that many modifiers.
pub open spec fn parse_entity_property(s: Seq<u8>, p: int) -> Parsed<(Seq<char>, u64, Seq<EntityAttributeModifier>)> {
    match parse_string(s, p) {
        Err(e) => Err(e),
        Ok((key, q)) => match parse_u64(s, q) {
            Err(e) => Err(e),
            Ok((value, q2)) => match parse_varint_count(s, q2) {
                Err(e) => Err(e),
                Ok((n, q3)) => match parse_repeated(modifier_parser(), s, q3, n) {
                    Err(e) => Err(e),
                    Ok((ms, q4)) => Ok(((key, value, ms), q4)),
                },
            },
        },
    }
}

pub open spec fn entity_property_bytes(e: (Seq<char>, u64, Seq<EntityAttributeModifier>)) -> Seq<u8> {
    string_bytes(e.0) + u64_bytes(e.1) + varint_bytes(e.2.len() as i32) + repeated_bytes(modifier_writer(), e.2)
}

pub open spec fn entity_property_parser() -> spec_fn(Seq<u8>, int) -> Parsed<(Seq<char>, u64, Seq<EntityAttributeModifier>)> {
    |s: Seq<u8>, p: int| parse_entity_property(s, p)
}

pub open spec fn entity_property_writer() -> spec_fn((Seq<char>, u64, Seq<EntityAttributeModifier>)) -> Seq<u8> {
    |e: (Seq<char>, u64, Seq<EntityAttributeModifier>)| entity_property_bytes(e)
}

/// A 16-bit count, then that many entity properties.
pub open spec fn parse_entity_properties(s: Seq<u8>, p: int) -> Parsed<Seq<(Seq<char>, u64, Seq<EntityAttributeModifier>)>> {
    match parse_short_count(s, p) {
        Err(e) => Err(e),
        Ok((n, q)) => parse_repeated(entity_property_parser(), s, q, n),
    }
}

pub open spec fn entity_properties_bytes(xs: Seq<(Seq<char>, u64, Seq<EntityAttributeModifier>)>) -> Seq<u8> {
    i16_bytes(xs.len() as i16) + repeated_bytes(entity_property_writer(), xs)
}

pub open spec fn entity_property_fits(e: (Seq<char>, u64, Seq<EntityAttributeModifier>)) -> bool {
    string_fits(e.0) && e.2.len() <= i32::MAX
}

pub fn read_modifier(buf: &[u8], pos: usize) -> (r: Result<(EntityAttributeModifier, usize), ProtocolError>)
    ensures
        parsed_as(r, parse_modifier(buf@, pos as int)),
{
    let (uuid, q) = read_uuid(buf, pos)?;
    let (amount, q2) = read_u64(buf, q)?;
    let (operation, q3) = read_u8_async(buf, q2)?;
    Ok((EntityAttributeModifier { uuid, amount, operation }, q3))
}

pub fn write_modifier(out: &mut Vec<u8>, m: EntityAttributeModifier)
    ensures
        final(out)@ == old(out)@ + modifier_bytes(m),
{
    write_uuid(out, m.uuid);
    write_u64(out, m.amount);
    write_u8_async(out, m.operation);
    assert(final(out)@ =~= old(out)@ + modifier_bytes(m));
}

pub fn read_entity_property(buf: &[u8], pos: usize) -> (r: Result<(EntityProperty, usize), ProtocolError>)
    ensures
        parsed_view(r, parse_entity_property(buf@, pos as int)),
{
    let (key, q) = read_varstring(buf, pos)?;
    let (value, q2) = read_u64(buf, q)?;
    let (n, q3) = read_varint_count(buf, q2)?;
    let mut modifiers: Vec<EntityAttributeModifier> = Vec::new();
    let mut q4 = q3;
    let mut i: usize = 0;
    while i < n
        invariant
            i <= n,
            parse_string(buf@, pos as int) == Ok::<(Seq<char>, int), ProtocolError>((key@, q as int)),
            parse_u64(buf@, q as int) == Ok::<(u64, int), ProtocolError>((value, q2 as int)),
            parse_varint_count(buf@, q2 as int) == Ok::<(nat, int), ProtocolError>((n as nat, q3 as int)),
            parse_repeated(modifier_parser(), buf@, q3 as int, i as nat) == Ok::<(Seq<EntityAttributeModifier>, int), ProtocolError>(
                (modifiers@, q4 as int),
            ),
        decreases n - i,
    {
        match read_modifier(buf, q4) {
            Ok((m, q5)) => {
                modifiers.push(m);
                q4 = q5;
            },
            Err(e) => {
                proof {
                    assert(modifier_parser()(buf@, q4 as int) == parse_modifier(buf@, q4 as int));
                    assert(parse_repeated(modifier_parser(), buf@, q3 as int, (i + 1) as nat) is Err);
                    lemma_repeated_err(modifier_parser(), buf@, q3 as int, (i + 1) as nat, n as nat);
                }
                return Err(e);
            },
        }
        i = i + 1;
    }
    Ok((EntityProperty { key, value, modifiers }, q4))
}

pub fn write_entity_property(out: &mut Vec<u8>, e: &EntityProperty)
    requires
        entity_property_fits(e@),
    ensures
        final(out)@ == old(out)@ + entity_property_bytes(e@),
{
    write_varstring(out, e.key.as_str());
    write_u64(out, e.value);
    write_varint(out, e.modifiers.len() as i32);
    let ghost head = out@;
    let mut i: usize = 0;
    while i < e.modifiers.len()
        invariant
            i <= e.modifiers@.len(),
            out@ == head + repeated_bytes(modifier_writer(), e.modifiers@.subrange(0, i as int)),
        decreases e.modifiers@.len() - i,
    {
        proof {
            lemma_repeated_bytes_step(modifier_writer(), e.modifiers@, i as int);
        }
        write_modifier(out, e.modifiers[i]);
        i = i + 1;
    }
    assert(e.modifiers@.subrange(0, e.modifiers@.len() as int) =~= e.modifiers@);
    assert(final(out)@ =~= old(out)@ + entity_property_bytes(e@));
}

pub fn read_entity_properties(buf: &[u8], pos: usize) -> (r: Result<(Vec<EntityProperty>, usize), ProtocolError>)
    ensures
        match parse_entity_properties(buf@, pos as int) {
            Ok((v, q)) => r matches Ok((v2, q2)) && v2@.map_values(|e: EntityProperty| e@) == v && q2 == q,
            Err(e) => r == Err::<(Vec<EntityProperty>, usize), ProtocolError>(e),
        },
{
    let (n, q0) = read_short_count(buf, pos)?;
    let mut props: Vec<EntityProperty> = Vec::new();
    assert(props@.map_values(|e: EntityProperty| e@) =~= Seq::empty());
    let mut q = q0;
    let mut i: usize = 0;
    while i < n
        invariant
            i <= n,
            parse_short_count(buf@, pos as int) == Ok::<(nat, int), ProtocolError>((n as nat, q0 as int)),
            parse_repeated(entity_property_parser(), buf@, q0 as int, i as nat) == Ok::<(Seq<(Seq<char>, u64, Seq<EntityAttributeModifier>)>, int), ProtocolError>(
                (props@.map_values(|e: EntityProperty| e@), q as int),
            ),
        decreases n - i,
    {
        match read_entity_property(buf, q) {
            Ok((e, q2)) => {
                let ghost before = props@;
                props.push(e);
                assert(props@.map_values(|e: EntityProperty| e@) =~= before.map_values(|e: EntityProperty| e@).push(e@));
                q = q2;
            },
            Err(e) => {
                proof {
                    assert(entity_property_parser()(buf@, q as int) == parse_entity_property(buf@, q as int));
                    assert(parse_repeated(entity_property_parser(), buf@, q0 as int, (i + 1) as nat) is Err);
                    lemma_repeated_err(entity_property_parser(), buf@, q0 as int, (i + 1) as nat, n as nat);
                }
                return Err(e);
            },
        }
        i = i + 1;
    }
    Ok((props, q))
}

pub fn write_entity_properties(out: &mut Vec<u8>, props: &Vec<EntityProperty>)
    requires
        props@.len() <= i16::MAX,
        forall|i: int| 0 <= i < props@.len() ==> entity_property_fits(#[trigger] props@[i]@),
    ensures
        final(out)@ == old(out)@ + entity_properties_bytes(props@.map_values(|e: EntityProperty| e@)),
{
    let ghost views = props@.map_values(|e: EntityProperty| e@);
    write_i16_be(out, props.len() as i16);
    let ghost head = out@;
    let mut i: usize = 0;
    while i < props.len()
        invariant
            i <= props@.len(),
            views == props@.map_values(|e: EntityProperty| e@),
            forall|i: int| 0 <= i < props@.len() ==> entity_property_fits(#[trigger] props@[i]@),
            out@ == head + repeated_bytes(entity_property_writer(), views.subrange(0, i as int)),
        decreases props@.len() - i,
    {
        proof {
            lemma_repeated_bytes_step(entity_property_writer(), views, i as int);
        }
        write_entity_property(out, &props[i]);
        i = i + 1;
    }
    assert(views.subrange(0, views.len() as int) =~= views);
    assert(final(out)@ =~= old(out)@ + entity_properties_bytes(views));
}


// ----- statistics -----

pub open spec fn parse_stat(s: Seq<u8>, p: int) -> Parsed<(Seq<char>, i32)> {
    match parse_string(s, p) {
        Err(e) => Err(e),
        Ok((name, q)) => match parse_varint(s, q) {
            Err(e) => Err(e),
            Ok((v, q2)) => Ok(((name, v), q2)),
        },
    }
}

pub open spec fn stat_bytes(e: (Seq<char>, i32)) -> Seq<u8> {
    string_bytes(e.0) + varint_bytes(e.1)
}

pub open spec fn stat_parser() -> spec_fn(Seq<u8>, int) -> Parsed<(Seq<char>, i32)> {
    |s: Seq<u8>, p: int| parse_stat(s, p)
}

pub open spec fn stat_writer() -> spec_fn((Seq<char>, i32)) -> Seq<u8> {
    |e: (Seq<char>, i32)| stat_bytes(e)
}

/// A variable-length count, then that many (name, value) pairs.
pub open spec fn parse_statistics(s: Seq<u8>, p: int) -> Parsed<Seq<(Seq<char>, i32)>> {
    match parse_varint_count(s, p) {
        Err(e) => Err(e),
        Ok((n, q)) => parse_repeated(stat_parser(), s, q, n),
    }
}

pub open spec fn statistics_bytes(xs: Seq<(Seq<char>, i32)>) -> Seq<u8> {
    varint_bytes(xs.len() as i32) + repeated_bytes(stat_writer(), xs)
}

pub open spec fn statistics_fit(xs: Seq<(Seq<char>, i32)>) -> bool {
    xs.len() <= i32::MAX && forall|i: int| 0 <= i < xs.len() ==> string_fits(#[trigger] xs[i].0)
}

pub fn read_statistics(buf: &[u8], pos: usize) -> (r: Result<(Properties, usize), ProtocolError>)
    ensures
        parsed_view(r, parse_statistics(buf@, pos as int)),
{
    let (n, q0) = read_varint_count(buf, pos)?;
    let mut entries: Vec<(String, i32)> = Vec::new();
    assert(stats_view(entries@) =~= Seq::<(Seq<char>, i32)>::empty());
    let mut q = q0;
    let mut i: usize = 0;
    while i < n
        invariant
            i <= n,
            parse_varint_count(buf@, pos as int) == Ok::<(nat, int), ProtocolError>((n as nat, q0 as int)),
            parse_repeated(stat_parser(), buf@, q0 as int, i as nat) == Ok::<(Seq<(Seq<char>, i32)>, int), ProtocolError>(
                (stats_view(entries@), q as int),
            ),
        decreases n - i,
    {
        let r1 = read_varstring(buf, q);
        let r2 = match r1 {
            Ok((name, q1)) => match read_varint(buf, q1) {
                Ok((v, q2)) => Ok((name, v, q2)),
                Err(e) => Err(e),
            },
            Err(e) => Err(e),
        };
        match r2 {
            Ok((name, v, q2)) => {
                let ghost before = entries@;
                let ghost e = (name@, v);
                entries.push((name, v));
                assert(stats_view(entries@) =~= stats_view(before).push(e));
                q = q2;
            },
            Err(e) => {
                proof {
                    assert(stat_parser()(buf@, q as int) == parse_stat(buf@, q as int));
                    assert(parse_repeated(stat_parser(), buf@, q0 as int, (i + 1) as nat) is Err);
                    lemma_repeated_err(stat_parser(), buf@, q0 as int, (i + 1) as nat, n as nat);
                }
                return Err(e);
            },
        }
        i = i + 1;
    }
    Ok((Properties(entries), q))
}


pub fn write_statistics(out: &mut Vec<u8>, stats: &Properties)
    requires
        statistics_fit(stats@),
    ensures
        final(out)@ == old(out)@ + statistics_bytes(stats@),
{
    let ghost views = stats@;
    write_varint(out, stats.0.len() as i32);
    let ghost head = out@;
    let mut i: usize = 0;
    while i < stats.0.len()
        invariant
            i <= stats.0@.len(),
            views == stats@,
            statistics_fit(views),
            out@ == head + repeated_bytes(stat_writer(), views.subrange(0, i as int)),
        decreases stats.0@.len() - i,
    {
        proof {
            lemma_repeated_bytes_step(stat_writer(), views, i as int);
        }
        assert(string_fits(views[i as int].0));
        write_varstring(out, stats.0[i].0.as_str());
        write_varint(out, stats.0[i].1);
        i = i + 1;
        assert(out@ =~= head + repeated_bytes(stat_writer(), views.subrange(0, i as int)));
    }
    assert(views.subrange(0, views.len() as int) =~= views);
    assert(final(out)@ =~= old(out)@ + statistics_bytes(views));
}

// ----- game profiles -----

/// Name and value; then a signature if a string can be read there, else none
/// (and nothing is consumed for it).
pub open spec fn parse_profile_property(s: Seq<u8>, p: int) -> Parsed<(Seq<char>, Seq<char>, Option<Seq<char>>)> {
    match parse_string(s, p) {
        Err(e) => Err(e),
        Ok((name, q)) => match parse_string(s, q) {
            Err(e) => Err(e),
            Ok((value, q2)) => match parse_string(s, q2) {
                Ok((sig, q3)) => Ok(((name, value, Some(sig)), q3)),
                Err(_) => Ok(((name, value, None), q2)),
            },
        },
    }
}

pub open spec fn profile_property_bytes(pp: (Seq<char>, Seq<char>, Option<Seq<char>>)) -> Seq<u8> {
    string_bytes(pp.0) + string_bytes(pp.1) + match pp.2 {
        Some(sig) => string_bytes(sig),
        None => Seq::empty(),
    }
}

pub open spec fn profile_property_parser() -> spec_fn(Seq<u8>, int) -> Parsed<(Seq<char>, Seq<char>, Option<Seq<char>>)> {
    |s: Seq<u8>, p: int| parse_profile_property(s, p)
}

pub open spec fn profile_property_writer() -> spec_fn((Seq<char>, Seq<char>, Option<Seq<char>>)) -> Seq<u8> {
    |pp: (Seq<char>, Seq<char>, Option<Seq<char>>)| profile_property_bytes(pp)
}

pub open spec fn profile_property_fits(pp: (Seq<char>, Seq<char>, Option<Seq<char>>)) -> bool {
    string_fits(pp.0) && string_fits(pp.1) && match pp.2 {
        Some(sig) => string_fits(sig),
        None => true,
    }
}

/// Id, name, a variable-length count, then that many properties.
pub open spec fn parse_game_profile(s: Seq<u8>, p: int) -> Parsed<(Seq<char>, Seq<char>, Seq<(Seq<char>, Seq<char>, Option<Seq<char>>)>)> {
    match parse_string(s, p) {
        Err(e) => Err(e),
        Ok((id, q)) => match parse_string(s, q) {
            Err(e) => Err(e),
            Ok((name, q2)) => match parse_varint_count(s, q2) {
                Err(e) => Err(e),
                Ok((n, q3)) => match parse_repeated(profile_property_parser(), s, q3, n) {
                    Err(e) => Err(e),
                    Ok((props, q4)) => Ok(((id, name, props), q4)),
                },
            },
        },
    }
}

pub open spec fn game_profile_bytes(g: (Seq<char>, Seq<char>, Seq<(Seq<char>, Seq<char>, Option<Seq<char>>)>)) -> Seq<u8> {
    string_bytes(g.0) + string_bytes(g.1) + varint_bytes(g.2.len() as i32) + repeated_bytes(profile_property_writer(), g.2)
}

pub open spec fn game_profile_fits(g: (Seq<char>, Seq<char>, Seq<(Seq<char>, Seq<char>, Option<Seq<char>>)>)) -> bool {
    string_fits(g.0) && string_fits(g.1) && g.2.len() <= i32::MAX
        && forall|i: int| 0 <= i < g.2.len() ==> profile_property_fits(#[trigger] g.2[i])
}

pub fn read_profile_property(buf: &[u8], pos: usize) -> (r: Result<(ProfileProperty, usize), ProtocolError>)
    ensures
        parsed_view(r, parse_profile_property(buf@, pos as int)),
{
    let (name, q) = read_varstring(buf, pos)?;
    let (value, q2) = read_varstring(buf, q)?;
    match read_varstring(buf, q2) {
        Ok((sig, q3)) => Ok((ProfileProperty { name, value, signature: Some(sig) }, q3)),
        Err(_) => Ok((ProfileProperty { name, value, signature: None }, q2)),
    }
}

pub fn write_profile_property(out: &mut Vec<u8>, pp: &ProfileProperty)
    requires
        profile_property_fits(pp@),
    ensures
        final(out)@ == old(out)@ + profile_property_bytes(pp@),
{
    write_varstring(out, pp.name.as_str());
    write_varstring(out, pp.value.as_str());
    match &pp.signature {
        Some(sig) => {
            write_varstring(out, sig.as_str());
        },
        None => {},
    }
    assert(final(out)@ =~= old(out)@ + profile_property_bytes(pp@));
}

pub fn read_game_profile(buf: &[u8], pos: usize) -> (r: Result<(GameProfile, usize), ProtocolError>)
    ensures
        parsed_view(r, parse_game_profile(buf@, pos as int)),
{
    let (id, q) = read_varstring(buf, pos)?;
    let (name, q2) = read_varstring(buf, q)?;
    let (n, q3) = read_varint_count(buf, q2)?;
    let mut props: Vec<ProfileProperty> = Vec::new();
    assert(props@.map_values(|p: ProfileProperty| p@) =~= Seq::empty());
    let mut q4 = q3;
    let mut i: usize = 0;
    while i < n
        invariant
            i <= n,
            parse_string(buf@, pos as int) == Ok::<(Seq<char>, int), ProtocolError>((id@, q as int)),
            parse_string(buf@, q as int) == Ok::<(Seq<char>, int), ProtocolError>((name@, q2 as int)),
            parse_varint_count(buf@, q2 as int) == Ok::<(nat, int), ProtocolError>((n as nat, q3 as int)),
            parse_repeated(profile_property_parser(), buf@, q3 as int, i as nat) == Ok::<(Seq<(Seq<char>, Seq<char>, Option<Seq<char>>)>, int), ProtocolError>(
                (props@.map_values(|p: ProfileProperty| p@), q4 as int),
            ),
        decreases n - i,
    {
        match read_profile_property(buf, q4) {
            Ok((pp, q5)) => {
                let ghost before = props@;
                props.push(pp);
                assert(props@.map_values(|p: ProfileProperty| p@) =~= before.map_values(|p: ProfileProperty| p@).push(pp@));
                q4 = q5;
            },
            Err(e) => {
                proof {
                    assert(profile_property_parser()(buf@, q4 as int) == parse_profile_property(buf@, q4 as int));
                    assert(parse_repeated(profile_property_parser(), buf@, q3 as int, (i + 1) as nat) is Err);
                    lemma_repeated_err(profile_property_parser(), buf@, q3 as int, (i + 1) as nat, n as nat);
                }
                return Err(e);
            },
        }
        i = i + 1;
    }
    Ok((GameProfile { id, name, properties: props }, q4))
}

pub fn write_game_profile(out: &mut Vec<u8>, g: &GameProfile)
    requires
        game_profile_fits(g@),
    ensures
        final(out)@ == old(out)@ + game_profile_bytes(g@),
{
    let ghost views = g.properties@.map_values(|p: ProfileProperty| p@);
    write_varstring(out, g.id.as_str());
    write_varstring(out, g.name.as_str());
    write_varint(out, g.properties.len() as i32);
    let ghost head = out@;
    let mut i: usize = 0;
    while i < g.properties.len()
        invariant
            i <= g.properties@.len(),
            views == g.properties@.map_values(|p: ProfileProperty| p@),
            game_profile_fits(g@),
            out@ == head + repeated_bytes(profile_property_writer(), views.subrange(0, i as int)),
        decreases g.properties@.len() - i,
    {
        proof {
            lemma_repeated_bytes_step(profile_property_writer(), views, i as int);
        }
        assert(profile_property_fits(g@.2[i as int]));
        write_profile_property(out, &g.properties[i]);
        i = i + 1;
    }
    assert(views.subrange(0, views.len() as int) =~= views);
    assert(final(out)@ =~= old(out)@ + game_profile_bytes(g@));
}

// ----- opaque payloads -----

/// Everything from `p` to the end of the frame, kept verbatim.
pub open spec fn parse_rest(s: Seq<u8>, p: int) -> Parsed<Seq<u8>> {
    if 0 <= p <= s.len() {
        Ok((s.subrange(p, s.len() as int), s.len() as int))
    } else {
        Err(ProtocolError::UnexpectedEnd)
    }
}

pub fn read_rest(buf: &[u8], pos: usize) -> (r: Result<(Vec<u8>, usize), ProtocolError>)
    ensures
        parsed_view(r, parse_rest(buf@, pos as int)),
{
    if pos > buf.len() {
        return Err(ProtocolError::UnexpectedEnd);
    }
    let v = vstd::slice::slice_to_vec(vstd::slice::slice_subrange(buf, pos, buf.len()));
    Ok((v, buf.len()))
}

// ----- any field -----

pub open spec fn lift<T>(r: Parsed<T>, f: spec_fn(T) -> FieldView) -> Parsed<FieldView> {
    match r {
        Ok((v, q)) => Ok((f(v), q)),
        Err(e) => Err(e),
    }
}

/// Reads a field of the given kind at `p`.
pub open spec fn parse_field(kind: FieldKind, s: Seq<u8>, p: int) -> Parsed<FieldView> {
    match kind {
        FieldKind::VarInt => lift(parse_varint(s, p), |v: i32| FieldView::VarInt(v)),
        FieldKind::Text => lift(parse_string(s, p), |v: Seq<char>| FieldView::Text(v)),
        FieldKind::UShort => lift(parse_u16(s, p), |v: u16| FieldView::UShort(v)),
        FieldKind::Byte => lift(parse_u8(s, p), |v: u8| FieldView::Byte(v)),
        FieldKind::Short => lift(parse_i16(s, p), |v: i16| FieldView::Short(v)),
        FieldKind::Int => lift(parse_i32(s, p), |v: i32| FieldView::Int(v)),
        FieldKind::Long => lift(parse_i64(s, p), |v: i64| FieldView::Long(v)),
        FieldKind::Float => lift(parse_u32(s, p), |v: u32| FieldView::Float(v)),
        FieldKind::Double => lift(parse_u64(s, p), |v: u64| FieldView::Double(v)),
        FieldKind::Boolean => lift(parse_bool(s, p), |v: bool| FieldView::Boolean(v)),
        FieldKind::BytesVarInt => lift(parse_bytes_varint(s, p), |v: Seq<u8>| FieldView::BytesVarInt(v)),
        FieldKind::BytesShort => lift(parse_bytes_short(s, p), |v: Seq<u8>| FieldView::BytesShort(v)),
        FieldKind::BytesInt => lift(parse_bytes_int(s, p), |v: Seq<u8>| FieldView::BytesInt(v)),
        FieldKind::Uuid => lift(parse_uuid(s, p), |v: u128| FieldView::Uuid(v)),
        FieldKind::Item => lift(parse_item_stack(s, p), |v: ItemStack| FieldView::Item(v)),
        FieldKind::Items => lift(parse_item_stacks(s, p), |v: Seq<ItemStack>| FieldView::Items(v)),
        FieldKind::EntityProperties => lift(
            parse_entity_properties(s, p),
            |v: Seq<(Seq<char>, u64, Seq<EntityAttributeModifier>)>| FieldView::EntityProperties(v),
        ),
        FieldKind::Statistics => lift(parse_statistics(s, p), |v: Seq<(Seq<char>, i32)>| FieldView::Statistics(v)),
        FieldKind::Profile => lift(
            parse_game_profile(s, p),
            |v: (Seq<char>, Seq<char>, Seq<(Seq<char>, Seq<char>, Option<Seq<char>>)>)| FieldView::Profile(v),
        ),
        FieldKind::Unimplemented => lift(parse_rest(s, p), |v: Seq<u8>| FieldView::Unimplemented(v)),
    }
}

/// The kind of field that a value is.
pub open spec fn kind_of(v: FieldView) -> FieldKind {
    match v {
        FieldView::VarInt(_) => FieldKind::VarInt,
        FieldView::Text(_) => FieldKind::Text,
        FieldView::UShort(_) => FieldKind::UShort,
        FieldView::Byte(_) => FieldKind::Byte,
        FieldView::Short(_) => FieldKind::Short,
        FieldView::Int(_) => FieldKind::Int,
        FieldView::Long(_) => FieldKind::Long,
        FieldView::Float(_) => FieldKind::Float,
        FieldView::Double(_) => FieldKind::Double,
        FieldView::Boolean(_) => FieldKind::Boolean,
        FieldView::BytesVarInt(_) => FieldKind::BytesVarInt,
        FieldView::BytesShort(_) => FieldKind::BytesShort,
        FieldView::BytesInt(_) => FieldKind::BytesInt,
        FieldView::Uuid(_) => FieldKind::Uuid,
        FieldView::Item(_) => FieldKind::Item,
        FieldView::Items(_) => FieldKind::Items,
        FieldView::EntityProperties(_) => FieldKind::EntityProperties,
        FieldView::Statistics(_) => FieldKind::Statistics,
        FieldView::Profile(_) => FieldKind::Profile,
        FieldView::Unimplemented(_) => FieldKind::Unimplemented,
    }
}

/// The wire form of a field.
pub open spec fn field_bytes(v: FieldView) -> Seq<u8> {
    match v {
        FieldView::VarInt(x) => varint_bytes(x),
        FieldView::Text(x) => string_bytes(x),
        FieldView::UShort(x) => u16_bytes(x),
        FieldView::Byte(x) => seq![x],
        FieldView::Short(x) => i16_bytes(x),
        FieldView::Int(x) => i32_bytes(x),
        FieldView::Long(x) => i64_bytes(x),
        FieldView::Float(x) => u32_bytes(x),
        FieldView::Double(x) => u64_bytes(x),
        FieldView::Boolean(x) => bool_bytes(x),
        FieldView::BytesVarInt(x) => bytes_varint_bytes(x),
        FieldView::BytesShort(x) => bytes_short_bytes(x),
        FieldView::BytesInt(x) => bytes_int_bytes(x),
        FieldView::Uuid(x) => uuid_bytes(x),
        FieldView::Item(x) => item_stack_bytes(x),
        FieldView::Items(x) => item_stacks_bytes(x),
        FieldView::EntityProperties(x) => entity_properties_bytes(x),
        FieldView::Statistics(x) => statistics_bytes(x),
        FieldView::Profile(x) => game_profile_bytes(x),
        FieldView::Unimplemented(x) => x,
    }
}

/// The field's lengths and counts fit their prefixes.
pub open spec fn field_fits(v: FieldView) -> bool {
    match v {
        FieldView::Text(x) => string_fits(x),
        FieldView::BytesVarInt(x) => x.len() <= i32::MAX,
        FieldView::BytesShort(x) => x.len() <= i16::MAX,
        FieldView::BytesInt(x) => x.len() <= i32::MAX,
        FieldView::Items(x) => x.len() <= i16::MAX,
        FieldView::EntityProperties(x) => x.len() <= i16::MAX
            && forall|i: int| 0 <= i < x.len() ==> entity_property_fits(#[trigger] x[i]),
        FieldView::Statistics(x) => statistics_fit(x),
        FieldView::Profile(x) => game_profile_fits(x),
        _ => true,
    }
}

/// Reads one field of the given kind at `pos`.
pub fn read_field(kind: FieldKind, buf: &[u8], pos: usize) -> (r: Result<(FieldValue, usize), ProtocolError>)
    ensures
        parsed_view(r, parse_field(kind, buf@, pos as int)),
{
    match kind {
        FieldKind::VarInt => {
            let (v, q) = read_varint(buf, pos)?;
            Ok((FieldValue::VarInt(v), q))
        },
        FieldKind::Text => {
            let (v, q) = read_varstring(buf, pos)?;
            Ok((FieldValue::Text(v), q))
        },
        FieldKind::UShort => {
            let (v, q) = read_u16_be(buf, pos)?;
            Ok((FieldValue::UShort(v), q))
        },
        FieldKind::Byte => {
            let (v, q) = read_u8_async(buf, pos)?;
            Ok((FieldValue::Byte(v), q))
        },
        FieldKind::Short => {
            let (v, q) = read_i16_be(buf, pos)?;
            Ok((FieldValue::Short(v), q))
        },
        FieldKind::Int => {
            let (v, q) = read_i32_be(buf, pos)?;
            Ok((FieldValue::Int(v), q))
        },
        FieldKind::Long => {
            let (v, q) = read_i64_be(buf, pos)?;
            Ok((FieldValue::Long(v), q))
        },
        FieldKind::Float => {
            let (v, q) = read_u32(buf, pos)?;
            Ok((FieldValue::Float(v), q))
        },
        FieldKind::Double => {
            let (v, q) = read_u64(buf, pos)?;
            Ok((FieldValue::Double(v), q))
        },
        FieldKind::Boolean => {
            let (v, q) = read_bool(buf, pos)?;
            Ok((FieldValue::Boolean(v), q))
        },
        FieldKind::BytesVarInt => {
            let (v, q) = read_bytearray(buf, pos)?;
            Ok((FieldValue::BytesVarInt(v), q))
        },
        FieldKind::BytesShort => {
            let (v, q) = read_bytes_short(buf, pos)?;
            Ok((FieldValue::BytesShort(v), q))
        },
        FieldKind::BytesInt => {
            let (v, q) = read_bytes_int(buf, pos)?;
            Ok((FieldValue::BytesInt(v), q))
        },
        FieldKind::Uuid => {
            let (v, q) = read_uuid(buf, pos)?;
            Ok((FieldValue::Uuid(v), q))
        },
        FieldKind::Item => {
            let (v, q) = read_item_stack(buf, pos)?;
            Ok((FieldValue::Item(v), q))
        },
        FieldKind::Items => {
            let (v, q) = read_item_stacks(buf, pos)?;
            Ok((FieldValue::Items(v), q))
        },
        FieldKind::EntityProperties => {
            let (v, q) = read_entity_properties(buf, pos)?;
            Ok((FieldValue::EntityProperties(v), q))
        },
        FieldKind::Statistics => {
            let (v, q) = read_statistics(buf, pos)?;
            Ok((FieldValue::Statistics(v), q))
        },
        FieldKind::Profile => {
            let (v, q) = read_game_profile(buf, pos)?;
            Ok((FieldValue::Profile(v), q))
        },
        FieldKind::Unimplemented => {
            let (v, q) = read_rest(buf, pos)?;
            Ok((FieldValue::Unimplemented(v), q))
        },
    }
}

/// Appends the wire form of a field.
pub fn write_field(out: &mut Vec<u8>, v: &FieldValue)
    requires
        field_fits(v@),
    ensures
        final(out)@ == old(out)@ + field_bytes(v@),
{
    match v {
        FieldValue::VarInt(x) => write_varint(out, *x),
        FieldValue::Text(x) => write_varstring(out, x.as_str()),
        FieldValue::UShort(x) => write_u16_be(out, *x),
        FieldValue::Byte(x) => write_u8_async(out, *x),
        FieldValue::Short(x) => write_i16_be(out, *x),
        FieldValue::Int(x) => write_i32_be(out, *x),
        FieldValue::Long(x) => write_i64_be(out, *x),
        FieldValue::Float(x) => write_u32(out, *x),
        FieldValue::Double(x) => write_u64(out, *x),
        FieldValue::Boolean(x) => write_bool(out, *x),
        FieldValue::BytesVarInt(x) => write_bytearray(out, x.as_slice()),
        FieldValue::BytesShort(x) => write_bytes_short(out, x.as_slice()),
        FieldValue::BytesInt(x) => write_bytes_int(out, x.as_slice()),
        FieldValue::Uuid(x) => write_uuid(out, *x),
        FieldValue::Item(x) => write_item_stack(out, *x),
        FieldValue::Items(x) => write_item_stacks(out, x),
        FieldValue::EntityProperties(x) => {
            assert forall|i: int| 0 <= i < x@.len() implies entity_property_fits(#[trigger] x@[i]@) by {
                assert(x@.map_values(|e: EntityProperty| e@)[i] == x@[i]@);
            }
            write_entity_properties(out, x)
        },
        FieldValue::Statistics(x) => write_statistics(out, x),
        FieldValue::Profile(x) => write_game_profile(out, x),
        FieldValue::Unimplemented(x) => append_bytes(out, x.as_slice()),
    }
}


/// A field of one of the scalar kinds: a number, a boolean, a string, a
/// byte array, a UUID or an item stack. An empty item stack must have count
/// and damage zero, since its wire form carries neither.
pub open spec fn is_scalar_field(v: FieldView) -> bool {
    match v {
        FieldView::Items(_) | FieldView::EntityProperties(_) | FieldView::Statistics(_) | FieldView::Profile(_)
        | FieldView::Unimplemented(_) => false,
        FieldView::Item(it) => it.item_id == -1 ==> it.count == 0 && it.damage == 0,
        _ => true,
    }
}

proof fn lemma_prefixed_bytes_at(b: Seq<u8>, head: Seq<u8>, hlen: int, prefix: Seq<u8>, suffix: Seq<u8>)
    requires
        head.len() == hlen,
    ensures
        ({
            let s = prefix + (head + b) + suffix;
            &&& s == (prefix + head) + (b + suffix)
            &&& s == prefix + head + b + suffix
            &&& take_bytes(s, prefix.len() + hlen, b.len() as int) == Ok::<(Seq<u8>, int), ProtocolError>(
                (b, prefix.len() + hlen + b.len()),
            )
        }),
{
    let s = prefix + (head + b) + suffix;
    assert(s =~= (prefix + head) + (b + suffix));
    assert(s =~= prefix + head + b + suffix);
    assert(s.subrange(prefix.len() + hlen, prefix.len() + hlen + b.len()) =~= b);
}

proof fn lemma_var_int_field_round_trip(x: i32, prefix: Seq<u8>, suffix: Seq<u8>)
    ensures
        parse_field(FieldKind::VarInt, prefix + varint_bytes(x) + suffix, prefix.len() as int) == Ok::<(FieldView, int), ProtocolError>(
            (FieldView::VarInt(x), prefix.len() + varint_bytes(x).len() as int),
        ),
{
    lemma_varint_round_trip(x, prefix, suffix);
}

proof fn lemma_text_field_round_trip(x: Seq<char>, prefix: Seq<u8>, suffix: Seq<u8>)
    requires
        string_fits(x),
    ensures
        parse_field(FieldKind::Text, prefix + string_bytes(x) + suffix, prefix.len() as int) == Ok::<(FieldView, int), ProtocolError>(
            (FieldView::Text(x), prefix.len() + string_bytes(x).len() as int),
        ),
{
    lemma_string_round_trip(x, prefix, suffix);
}

proof fn lemma_u_short_field_round_trip(x: u16, prefix: Seq<u8>, suffix: Seq<u8>)
    ensures
        parse_field(FieldKind::UShort, prefix + u16_bytes(x) + suffix, prefix.len() as int) == Ok::<(FieldView, int), ProtocolError>(
            (FieldView::UShort(x), prefix.len() + u16_bytes(x).len() as int),
        ),
{
    lemma_fixed_width_round_trip(prefix, suffix, x, 0, 0, 0, 0, 0);
}

proof fn lemma_byte_field_round_trip(x: u8, prefix: Seq<u8>, suffix: Seq<u8>)
    ensures
        parse_field(FieldKind::Byte, prefix + seq![x] + suffix, prefix.len() as int) == Ok::<(FieldView, int), ProtocolError>(
            (FieldView::Byte(x), prefix.len() + seq![x].len() as int),
        ),
{
    assert((prefix + seq![x] + suffix)[prefix.len() as int] == x);
}

proof fn lemma_short_field_round_trip(x: i16, prefix: Seq<u8>, suffix: Seq<u8>)
    ensures
        parse_field(FieldKind::Short, prefix + i16_bytes(x) + suffix, prefix.len() as int) == Ok::<(FieldView, int), ProtocolError>(
            (FieldView::Short(x), prefix.len() + i16_bytes(x).len() as int),
        ),
{
    lemma_fixed_width_round_trip(prefix, suffix, 0, x, 0, 0, 0, 0);
}

proof fn lemma_int_field_round_trip(x: i32, prefix: Seq<u8>, suffix: Seq<u8>)
    ensures
        parse_field(FieldKind::Int, prefix + i32_bytes(x) + suffix, prefix.len() as int) == Ok::<(FieldView, int), ProtocolError>(
            (FieldView::Int(x), prefix.len() + i32_bytes(x).len() as int),
        ),
{
    lemma_fixed_width_round_trip(prefix, suffix, 0, 0, x, 0, 0, 0);
}

proof fn lemma_long_field_round_trip(x: i64, prefix: Seq<u8>, suffix: Seq<u8>)
    ensures
        parse_field(FieldKind::Long, prefix + i64_bytes(x) + suffix, prefix.len() as int) == Ok::<(FieldView, int), ProtocolError>(
            (FieldView::Long(x), prefix.len() + i64_bytes(x).len() as int),
        ),
{
    lemma_fixed_width_round_trip(prefix, suffix, 0, 0, 0, 0, x, 0);
}

proof fn lemma_float_field_round_trip(x: u32, prefix: Seq<u8>, suffix: Seq<u8>)
    ensures
        parse_field(FieldKind::Float, prefix + u32_bytes(x) + suffix, prefix.len() as int) == Ok::<(FieldView, int), ProtocolError>(
            (FieldView::Float(x), prefix.len() + u32_bytes(x).len() as int),
        ),
{
    lemma_fixed_width_round_trip(prefix, suffix, 0, 0, 0, x, 0, 0);
}

proof fn lemma_double_field_round_trip(x: u64, prefix: Seq<u8>, suffix: Seq<u8>)
    ensures
        parse_field(FieldKind::Double, prefix + u64_bytes(x) + suffix, prefix.len() as int) == Ok::<(FieldView, int), ProtocolError>(
            (FieldView::Double(x), prefix.len() + u64_bytes(x).len() as int),
        ),
{
    lemma_fixed_width_round_trip(prefix, suffix, 0, 0, 0, 0, 0, x);
}

proof fn lemma_boolean_field_round_trip(x: bool, prefix: Seq<u8>, suffix: Seq<u8>)
    ensures
        parse_field(FieldKind::Boolean, prefix + bool_bytes(x) + suffix, prefix.len() as int) == Ok::<(FieldView, int), ProtocolError>(
            (FieldView::Boolean(x), prefix.len() + bool_bytes(x).len() as int),
        ),
{
    assert((prefix + bool_bytes(x) + suffix)[prefix.len() as int] == bool_bytes(x)[0]);
}

proof fn lemma_bytes_var_int_field_round_trip(x: Seq<u8>, prefix: Seq<u8>, suffix: Seq<u8>)
    requires
        x.len() <= i32::MAX,
    ensures
        parse_field(FieldKind::BytesVarInt, prefix + bytes_varint_bytes(x) + suffix, prefix.len() as int) == Ok::<(FieldView, int), ProtocolError>(
            (FieldView::BytesVarInt(x), prefix.len() + bytes_varint_bytes(x).len() as int),
        ),
{
    lemma_bytes_varint_round_trip(x, prefix, suffix);
}

proof fn lemma_bytes_short_field_round_trip(x: Seq<u8>, prefix: Seq<u8>, suffix: Seq<u8>)
    requires
        x.len() <= i16::MAX,
    ensures
        parse_field(FieldKind::BytesShort, prefix + bytes_short_bytes(x) + suffix, prefix.len() as int) == Ok::<(FieldView, int), ProtocolError>(
            (FieldView::BytesShort(x), prefix.len() + bytes_short_bytes(x).len() as int),
        ),
{
    lemma_fixed_width_round_trip(prefix, x + suffix, 0, x.len() as i16, 0, 0, 0, 0);
    lemma_prefixed_bytes_at(x, i16_bytes(x.len() as i16), 2, prefix, suffix);
}

proof fn lemma_bytes_int_field_round_trip(x: Seq<u8>, prefix: Seq<u8>, suffix: Seq<u8>)
    requires
        x.len() <= i32::MAX,
    ensures
        parse_field(FieldKind::BytesInt, prefix + bytes_int_bytes(x) + suffix, prefix.len() as int) == Ok::<(FieldView, int), ProtocolError>(
            (FieldView::BytesInt(x), prefix.len() + bytes_int_bytes(x).len() as int),
        ),
{
    lemma_fixed_width_round_trip(prefix, x + suffix, 0, 0, x.len() as i32, 0, 0, 0);
    lemma_prefixed_bytes_at(x, i32_bytes(x.len() as i32), 4, prefix, suffix);
}

proof fn lemma_uuid_field_round_trip(x: u128, prefix: Seq<u8>, suffix: Seq<u8>)
    ensures
        parse_field(FieldKind::Uuid, prefix + uuid_bytes(x) + suffix, prefix.len() as int) == Ok::<(FieldView, int), ProtocolError>(
            (FieldView::Uuid(x), prefix.len() + uuid_bytes(x).len() as int),
        ),
{
    lemma_uuid_round_trip(x, prefix, suffix);
}

proof fn lemma_item_field_round_trip(it: ItemStack, prefix: Seq<u8>, suffix: Seq<u8>)
    requires
        it.item_id == -1 ==> it.count == 0 && it.damage == 0,
    ensures
        parse_field(FieldKind::Item, prefix + item_stack_bytes(it) + suffix, prefix.len() as int) == Ok::<(FieldView, int), ProtocolError>(
            (FieldView::Item(it), prefix.len() + item_stack_bytes(it).len() as int),
        ),
{
    let p = prefix.len() as int;
    let s = prefix + item_stack_bytes(it) + suffix;
    if it.item_id == -1 {
        lemma_fixed_width_round_trip(prefix, suffix, 0, -1i16, 0, 0, 0, 0);
    } else {
        let rest = seq![it.count] + i16_bytes(it.damage) + suffix;
        lemma_fixed_width_round_trip(prefix, rest, 0, it.item_id, 0, 0, 0, 0);
        assert(s =~= prefix + i16_bytes(it.item_id) + rest);
        assert(s[p + 2] == it.count);
        lemma_fixed_width_round_trip(prefix + i16_bytes(it.item_id) + seq![it.count], suffix, 0, it.damage, 0, 0, 0, 0);
        assert(s =~= prefix + i16_bytes(it.item_id) + seq![it.count] + i16_bytes(it.damage) + suffix);
    }
}

/// A scalar field that fits its length prefix reads back, by its own kind,
/// as itself, whatever precedes or follows it.
pub proof fn lemma_field_round_trip(v: FieldView, prefix: Seq<u8>, suffix: Seq<u8>)
    requires
        is_scalar_field(v),
        field_fits(v),
    ensures
        parse_field(kind_of(v), prefix + field_bytes(v) + suffix, prefix.len() as int) == Ok::<(FieldView, int), ProtocolError>(
            (v, prefix.len() + field_bytes(v).len() as int),
        ),
{
    match v {
        FieldView::VarInt(x) => lemma_var_int_field_round_trip(x, prefix, suffix),
        FieldView::Text(x) => lemma_text_field_round_trip(x, prefix, suffix),
        FieldView::UShort(x) => lemma_u_short_field_round_trip(x, prefix, suffix),
        FieldView::Byte(x) => lemma_byte_field_round_trip(x, prefix, suffix),
        FieldView::Short(x) => lemma_short_field_round_trip(x, prefix, suffix),
        FieldView::Int(x) => lemma_int_field_round_trip(x, prefix, suffix),
        FieldView::Long(x) => lemma_long_field_round_trip(x, prefix, suffix),
        FieldView::Float(x) => lemma_float_field_round_trip(x, prefix, suffix),
        FieldView::Double(x) => lemma_double_field_round_trip(x, prefix, suffix),
        FieldView::Boolean(x) => lemma_boolean_field_round_trip(x, prefix, suffix),
        FieldView::BytesVarInt(x) => lemma_bytes_var_int_field_round_trip(x, prefix, suffix),
        FieldView::BytesShort(x) => lemma_bytes_short_field_round_trip(x, prefix, suffix),
        FieldView::BytesInt(x) => lemma_bytes_int_field_round_trip(x, prefix, suffix),
        FieldView::Uuid(x) => lemma_uuid_field_round_trip(x, prefix, suffix),
        FieldView::Item(it) => lemma_item_field_round_trip(it, prefix, suffix),
        _ => {},
    }
}


/// Items read one after another back as themselves, given that each reads
/// back alone whatever surrounds it.
pub proof fn lemma_repeated_round_trip<T>(
    item: spec_fn(Seq<u8>, int) -> Parsed<T>,
    w: spec_fn(T) -> Seq<u8>,
    xs: Seq<T>,
    prefix: Seq<u8>,
    suffix: Seq<u8>,
)
    requires
        forall|x: T, pre: Seq<u8>, suf: Seq<u8>|
            xs.contains(x) ==> #[trigger] item(pre + w(x) + suf, pre.len() as int) == Ok::<(T, int), ProtocolError>(
                (x, pre.len() as int + w(x).len()),
            ),
    ensures
        parse_repeated(item, prefix + repeated_bytes(w, xs) + suffix, prefix.len() as int, xs.len()) == Ok::<
            (Seq<T>, int),
            ProtocolError,
        >((xs, prefix.len() as int + repeated_bytes(w, xs).len())),
    decreases xs.len(),
{
    if xs.len() == 0 {
        assert(xs =~= Seq::<T>::empty());
    } else {
        let ys = xs.drop_last();
        let x = xs.last();
        let s = prefix + repeated_bytes(w, xs) + suffix;
        assert forall|y: T, pre: Seq<u8>, suf: Seq<u8>|
            ys.contains(y) implies #[trigger] item(pre + w(y) + suf, pre.len() as int) == Ok::<(T, int), ProtocolError>(
            (y, pre.len() as int + w(y).len()),
        ) by {
            let k = choose|k: int| 0 <= k < ys.len() && ys[k] == y;
            assert(xs[k] == y);
        }
        lemma_repeated_round_trip(item, w, ys, prefix, w(x) + suffix);
        assert(s =~= prefix + repeated_bytes(w, ys) + (w(x) + suffix));
        let pre = prefix + repeated_bytes(w, ys);
        assert(s =~= pre + w(x) + suffix);
        assert(xs.contains(x)) by {
            assert(xs[xs.len() - 1] == x);
        }
        assert(item(pre + w(x) + suffix, pre.len() as int) == Ok::<(T, int), ProtocolError>((x, pre.len() as int + w(x).len())));
        assert(ys.push(x) =~= xs);
    }
}

/// An item stack reads back as itself; an empty one must have count and
/// damage zero, since its wire form carries neither.
pub proof fn lemma_item_stack_round_trip(it: ItemStack, prefix: Seq<u8>, suffix: Seq<u8>)
    requires
        it.item_id == -1 ==> it.count == 0 && it.damage == 0,
    ensures
        parse_item_stack(prefix + item_stack_bytes(it) + suffix, prefix.len() as int) == Ok::<(ItemStack, int), ProtocolError>(
            (it, prefix.len() as int + item_stack_bytes(it).len()),
        ),
{
    let p = prefix.len() as int;
    let s = prefix + item_stack_bytes(it) + suffix;
    if it.item_id == -1 {
        lemma_fixed_width_round_trip(prefix, suffix, 0, -1i16, 0, 0, 0, 0);
    } else {
        let rest = seq![it.count] + i16_bytes(it.damage) + suffix;
        lemma_fixed_width_round_trip(prefix, rest, 0, it.item_id, 0, 0, 0, 0);
        assert(s =~= prefix + i16_bytes(it.item_id) + rest);
        assert(s[p + 2] == it.count);
        lemma_fixed_width_round_trip(prefix + i16_bytes(it.item_id) + seq![it.count], suffix, 0, it.damage, 0, 0, 0, 0);
        assert(s =~= prefix + i16_bytes(it.item_id) + seq![it.count] + i16_bytes(it.damage) + suffix);
    }
}

/// A list of item stacks reads back as itself.
pub proof fn lemma_item_stacks_round_trip(xs: Seq<ItemStack>, prefix: Seq<u8>, suffix: Seq<u8>)
    requires
        xs.len() <= i16::MAX,
        forall|i: int| 0 <= i < xs.len() ==> (#[trigger] xs[i]).item_id == -1 ==> xs[i].count == 0 && xs[i].damage == 0,
    ensures
        parse_item_stacks(prefix + item_stacks_bytes(xs) + suffix, prefix.len() as int) == Ok::<(Seq<ItemStack>, int), ProtocolError>(
            (xs, prefix.len() as int + item_stacks_bytes(xs).len()),
        ),
{
    let body = repeated_bytes(item_stack_writer(), xs);
    let head = i16_bytes(xs.len() as i16);
    let s = prefix + item_stacks_bytes(xs) + suffix;
    lemma_fixed_width_round_trip(prefix, body + suffix, 0, xs.len() as i16, 0, 0, 0, 0);
    assert(s =~= prefix + head + (body + suffix));
    assert forall|x: ItemStack, pre: Seq<u8>, suf: Seq<u8>|
        xs.contains(x) implies #[trigger] item_stack_parser()(pre + item_stack_writer()(x) + suf, pre.len() as int)
        == Ok::<(ItemStack, int), ProtocolError>((x, pre.len() as int + item_stack_writer()(x).len())) by {
        let k = choose|k: int| 0 <= k < xs.len() && xs[k] == x;
        assert(xs[k] == x);
        lemma_item_stack_round_trip(x, pre, suf);
    }
    lemma_repeated_round_trip(item_stack_parser(), item_stack_writer(), xs, prefix + head, suffix);
    assert(s =~= (prefix + head) + body + suffix);
}

proof fn lemma_modifier_round_trip(m: EntityAttributeModifier, prefix: Seq<u8>, suffix: Seq<u8>)
    ensures
        parse_modifier(prefix + modifier_bytes(m) + suffix, prefix.len() as int) == Ok::<(EntityAttributeModifier, int), ProtocolError>(
            (m, prefix.len() as int + modifier_bytes(m).len()),
        ),
{
    let s = prefix + modifier_bytes(m) + suffix;
    let u = uuid_bytes(m.uuid);
    let a = u64_bytes(m.amount);
    lemma_uuid_round_trip(m.uuid, prefix, a + seq![m.operation] + suffix);
    assert(s =~= prefix + u + (a + seq![m.operation] + suffix));
    lemma_fixed_width_round_trip(prefix + u, seq![m.operation] + suffix, 0, 0, 0, 0, 0, m.amount);
    assert(s =~= (prefix + u) + a + (seq![m.operation] + suffix));
    assert(s[prefix.len() as int + 24] == m.operation);
}

#[verifier::rlimit(50)]
proof fn lemma_entity_property_round_trip(e: (Seq<char>, u64, Seq<EntityAttributeModifier>), prefix: Seq<u8>, suffix: Seq<u8>)
    requires
        entity_property_fits(e),
    ensures
        parse_entity_property(prefix + entity_property_bytes(e) + suffix, prefix.len() as int) == Ok::<
            ((Seq<char>, u64, Seq<EntityAttributeModifier>), int),
            ProtocolError,
        >((e, prefix.len() as int + entity_property_bytes(e).len())),
{
    let s = prefix + entity_property_bytes(e) + suffix;
    let k = string_bytes(e.0);
    let v = u64_bytes(e.1);
    let n = e.2.len() as i32;
    let c = varint_bytes(n);
    let body = repeated_bytes(modifier_writer(), e.2);
    let p0 = prefix.len() as int;
    let q1 = p0 + k.len();
    let q3 = q1 + 8 + c.len();
    let end = q3 + body.len();
    lemma_fixed_width_round_trip(prefix + k, c + body + suffix, 0, 0, 0, 0, 0, e.1);
    assert(s =~= prefix + k + (v + c + body + suffix));
    lemma_string_round_trip(e.0, prefix, v + c + body + suffix);
    assert(parse_string(s, p0) == Ok::<(Seq<char>, int), ProtocolError>((e.0, q1)));
    assert(s =~= (prefix + k) + v + (c + body + suffix));
    assert(parse_u64(s, q1) == Ok::<(u64, int), ProtocolError>((e.1, q1 + 8)));
    lemma_varint_round_trip(n, prefix + k + v, body + suffix);
    assert(s =~= (prefix + k + v) + c + (body + suffix));
    assert(parse_varint(s, q1 + 8) == Ok::<(i32, int), ProtocolError>((n, q3)));
    assert(parse_varint_count(s, q1 + 8) == Ok::<(nat, int), ProtocolError>((e.2.len(), q3)));
    assert forall|x: EntityAttributeModifier, pre: Seq<u8>, suf: Seq<u8>|
        e.2.contains(x) implies #[trigger] modifier_parser()(pre + modifier_writer()(x) + suf, pre.len() as int)
        == Ok::<(EntityAttributeModifier, int), ProtocolError>((x, pre.len() as int + modifier_writer()(x).len())) by {
        lemma_modifier_round_trip(x, pre, suf);
    }
    lemma_repeated_round_trip(modifier_parser(), modifier_writer(), e.2, prefix + k + v + c, suffix);
    assert(s =~= (prefix + k + v + c) + body + suffix);
    assert(parse_repeated(modifier_parser(), s, q3, e.2.len()) == Ok::<(Seq<EntityAttributeModifier>, int), ProtocolError>(
        (e.2, end),
    ));
    assert(entity_property_bytes(e).len() == k.len() + 8 + c.len() + body.len());
}

/// A list of entity properties reads back as itself.
pub proof fn lemma_entity_properties_round_trip(
    xs: Seq<(Seq<char>, u64, Seq<EntityAttributeModifier>)>,
    prefix: Seq<u8>,
    suffix: Seq<u8>,
)
    requires
        xs.len() <= i16::MAX,
        forall|i: int| 0 <= i < xs.len() ==> entity_property_fits(#[trigger] xs[i]),
    ensures
        parse_entity_properties(prefix + entity_properties_bytes(xs) + suffix, prefix.len() as int) == Ok::<
            (Seq<(Seq<char>, u64, Seq<EntityAttributeModifier>)>, int),
            ProtocolError,
        >((xs, prefix.len() as int + entity_properties_bytes(xs).len())),
{
    let body = repeated_bytes(entity_property_writer(), xs);
    let head = i16_bytes(xs.len() as i16);
    let s = prefix + entity_properties_bytes(xs) + suffix;
    lemma_fixed_width_round_trip(prefix, body + suffix, 0, xs.len() as i16, 0, 0, 0, 0);
    assert(s =~= prefix + head + (body + suffix));
    assert forall|x: (Seq<char>, u64, Seq<EntityAttributeModifier>), pre: Seq<u8>, suf: Seq<u8>|
        xs.contains(x) implies #[trigger] entity_property_parser()(pre + entity_property_writer()(x) + suf, pre.len() as int)
        == Ok::<((Seq<char>, u64, Seq<EntityAttributeModifier>), int), ProtocolError>(
        (x, pre.len() as int + entity_property_writer()(x).len()),
    ) by {
        let k = choose|k: int| 0 <= k < xs.len() && xs[k] == x;
        assert(entity_property_fits(xs[k]));
        lemma_entity_property_round_trip(x, pre, suf);
    }
    lemma_repeated_round_trip(entity_property_parser(), entity_property_writer(), xs, prefix + head, suffix);
    assert(s =~= (prefix + head) + body + suffix);
}

/// Statistics read back as themselves, in their order.
pub proof fn lemma_statistics_round_trip(xs: Seq<(Seq<char>, i32)>, prefix: Seq<u8>, suffix: Seq<u8>)
    requires
        statistics_fit(xs),
    ensures
        parse_statistics(prefix + statistics_bytes(xs) + suffix, prefix.len() as int) == Ok::<(Seq<(Seq<char>, i32)>, int), ProtocolError>(
            (xs, prefix.len() as int + statistics_bytes(xs).len()),
        ),
{
    let body = repeated_bytes(stat_writer(), xs);
    let head = varint_bytes(xs.len() as i32);
    let s = prefix + statistics_bytes(xs) + suffix;
    lemma_varint_round_trip(xs.len() as i32, prefix, body + suffix);
    assert(s =~= prefix + head + (body + suffix));
    assert forall|x: (Seq<char>, i32), pre: Seq<u8>, suf: Seq<u8>|
        xs.contains(x) implies #[trigger] stat_parser()(pre + stat_writer()(x) + suf, pre.len() as int) == Ok::<
        ((Seq<char>, i32), int),
        ProtocolError,
    >((x, pre.len() as int + stat_writer()(x).len())) by {
        let k = choose|k: int| 0 <= k < xs.len() && xs[k] == x;
        assert(string_fits(xs[k].0));
        let t = pre + stat_bytes(x) + suf;
        lemma_string_round_trip(x.0, pre, varint_bytes(x.1) + suf);
        assert(t =~= pre + string_bytes(x.0) + (varint_bytes(x.1) + suf));
        lemma_varint_round_trip(x.1, pre + string_bytes(x.0), suf);
        assert(t =~= (pre + string_bytes(x.0)) + varint_bytes(x.1) + suf);
    }
    lemma_repeated_round_trip(stat_parser(), stat_writer(), xs, prefix + head, suffix);
    assert(s =~= (prefix + head) + body + suffix);
}


/// A field whose wire form reads back as itself: a scalar field, or a list
/// of item stacks (empty stacks with count and damage zero), of entity
/// properties, or of statistics. Game profiles are not: a property without a
/// signature followed by another property reads that property's name as its
/// signature. Opaque payloads are not either: they take every byte after them.
pub open spec fn reads_back(v: FieldView) -> bool {
    match v {
        FieldView::Items(xs) => forall|i: int|
            0 <= i < xs.len() ==> (#[trigger] xs[i]).item_id == -1 ==> xs[i].count == 0 && xs[i].damage == 0,
        FieldView::EntityProperties(_) | FieldView::Statistics(_) => true,
        _ => is_scalar_field(v),
    }
}

/// Every field that `reads_back` and fits its length prefixes reads back,
/// by its own kind, as itself, whatever precedes or follows it.
pub proof fn lemma_any_field_round_trip(v: FieldView, prefix: Seq<u8>, suffix: Seq<u8>)
    requires
        reads_back(v),
        field_fits(v),
    ensures
        parse_field(kind_of(v), prefix + field_bytes(v) + suffix, prefix.len() as int) == Ok::<(FieldView, int), ProtocolError>(
            (v, prefix.len() + field_bytes(v).len() as int),
        ),
{
    match v {
        FieldView::Items(xs) => lemma_item_stacks_round_trip(xs, prefix, suffix),
        FieldView::EntityProperties(xs) => lemma_entity_properties_round_trip(xs, prefix, suffix),
        FieldView::Statistics(xs) => lemma_statistics_round_trip(xs, prefix, suffix),
        _ => lemma_field_round_trip(v, prefix, suffix),
    }
}

} // verus!
