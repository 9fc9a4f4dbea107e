//! Point address types of every protocol, and the parsing of shorthand address
//! strings into them.
use vstd::prelude::*;
use crate::point::{ByteOrder, DataFormat};
use crate::text::{
    spec_ascii_lower,
    chars_of, ends_with, eq_ignore_ascii_case, find_char, hex_upper, parse_uint, push_char,
    slice_range, spec_all_digits, spec_digit, spec_digits_value, spec_ends_with,
    spec_eq_ignore_ascii_case, spec_find_from, spec_hex_upper, spec_parse_uint, spec_starts_with,
    spec_trim, starts_with, string_from_chars, trim_chars,
};

verus! {

/// Modbus register address.
#[derive(Debug, Clone, Copy, PartialEq, Eq)]
pub struct ModbusAddress {
    pub slave_id: u8,
    pub register: u16,
    pub function_code: u8,
    pub format: DataFormat,
    pub byte_order: ByteOrder,
    pub bit_position: Option<u8>,
}

/// IEC 60870-5-104 information object address.
#[derive(Debug, Clone, Copy, PartialEq, Eq)]
pub struct Iec104Address {
    pub ioa: u32,
    pub type_id: u8,
    pub common_address: u16,
}

/// OPC UA node address.
#[derive(Debug, Clone, PartialEq, Eq)]
pub struct OpcUaAddress {
    pub node_id: String,
    pub namespace_index: u16,
}

/// Key of a virtual point.
#[derive(Debug, Clone, PartialEq, Eq)]
pub struct VirtualAddress {
    pub tag: String,
}

impl VirtualAddress {
    /// A virtual address with the given key.
    pub fn new(tag: &str) -> (v: VirtualAddress)
        ensures
            v.tag@ == tag@,
    {
        VirtualAddress { tag: tag.to_owned() }
    }
}

/// Direction of a GPIO line.
#[derive(Debug, Clone, Copy, PartialEq, Eq)]
pub enum GpioDirection {
    Input,
    Output,
}

/// GPIO line address.
#[derive(Debug, Clone, PartialEq, Eq)]
pub struct GpioAddress {
    pub chip: String,
    pub pin: u32,
    pub direction: GpioDirection,
}

impl GpioAddress {
    /// A digital input on `chip`, line `pin`.
    pub fn digital_input(chip: String, pin: u32) -> (g: GpioAddress)
        ensures
            g.chip == chip,
            g.pin == pin,
            g.direction == GpioDirection::Input,
    {
        GpioAddress { chip, pin, direction: GpioDirection::Input }
    }

    /// A digital output on `chip`, line `pin`.
    pub fn digital_output(chip: String, pin: u32) -> (g: GpioAddress)
        ensures
            g.chip == chip,
            g.pin == pin,
            g.direction == GpioDirection::Output,
    {
        GpioAddress { chip, pin, direction: GpioDirection::Output }
    }
}

/// BLE GATT characteristic address.
#[derive(Debug, Clone, PartialEq, Eq)]
pub struct BleAddress {
    pub service_uuid: String,
    pub characteristic_uuid: String,
    pub data_format: DataFormat,
    pub notify: bool,
}

/// Zigbee attribute address.
#[derive(Debug, Clone, Copy, PartialEq, Eq)]
pub struct ZigbeeAddress {
    pub ieee_address: u64,
    pub endpoint: u8,
    pub cluster_id: u16,
    pub attribute_id: u16,
}

/// Matter attribute address.
#[derive(Debug, Clone, Copy, PartialEq, Eq)]
pub struct MatterAddress {
    pub endpoint: u16,
    pub cluster_id: u32,
    pub attribute_id: u32,
}

impl MatterAddress {
    /// A Matter attribute address.
    pub fn new(endpoint: u16, cluster_id: u32, attribute_id: u32) -> (m: MatterAddress)
        ensures
            m == (MatterAddress { endpoint, cluster_id, attribute_id }),
    {
        MatterAddress { endpoint, cluster_id, attribute_id }
    }
}

/// IEC 61850 MMS variable address (domain and `$`-separated item).
#[derive(Debug, Clone, PartialEq, Eq)]
pub struct Iec61850Address {
    pub domain: String,
    pub item: String,
}

/// A point address of some protocol.
#[derive(Debug, Clone, PartialEq, Eq)]
pub enum ProtocolAddress {
    Modbus(ModbusAddress),
    Iec104(Iec104Address),
    OpcUa(OpcUaAddress),
    /// An address kept as given (CAN addresses, without a CAN decoder in this build).
    Generic(String),
    Virtual(VirtualAddress),
    Gpio(GpioAddress),
    Dl645(Dl645Address),
    Ble(BleAddress),
    Zigbee(ZigbeeAddress),
    Matter(MatterAddress),
    Iec61850(Iec61850Address),
}

/// The mathematical content of a `ProtocolAddress`.
pub enum AddressView {
    Modbus(ModbusAddress),
    Iec104(Iec104Address),
    OpcUa { node_id: Seq<char>, namespace_index: u16 },
    Generic(Seq<char>),
    Virtual(Seq<char>),
    Gpio { chip: Seq<char>, pin: u32, direction: GpioDirection },
    Dl645(u32),
    Ble { service_uuid: Seq<char>, characteristic_uuid: Seq<char>, data_format: DataFormat, notify: bool },
    Zigbee(ZigbeeAddress),
    Matter(MatterAddress),
    Iec61850 { domain: Seq<char>, item: Seq<char> },
}

impl View for ProtocolAddress {
    type V = AddressView;

    open spec fn view(&self) -> AddressView {
        match self {
            ProtocolAddress::Modbus(m) => AddressView::Modbus(*m),
            ProtocolAddress::Iec104(i) => AddressView::Iec104(*i),
            ProtocolAddress::OpcUa(o) => AddressView::OpcUa {
                node_id: o.node_id@,
                namespace_index: o.namespace_index,
            },
            ProtocolAddress::Generic(s) => AddressView::Generic(s@),
            ProtocolAddress::Virtual(v) => AddressView::Virtual(v.tag@),
            ProtocolAddress::Gpio(g) => AddressView::Gpio {
                chip: g.chip@,
                pin: g.pin,
                direction: g.direction,
            },
            ProtocolAddress::Dl645(d) => AddressView::Dl645(d.di_code),
            ProtocolAddress::Ble(b) => AddressView::Ble {
                service_uuid: b.service_uuid@,
                characteristic_uuid: b.characteristic_uuid@,
                data_format: b.data_format,
                notify: b.notify,
            },
            ProtocolAddress::Zigbee(z) => AddressView::Zigbee(*z),
            ProtocolAddress::Matter(m) => AddressView::Matter(*m),
            ProtocolAddress::Iec61850(a) => AddressView::Iec61850 { domain: a.domain@, item: a.item@ },
        }
    }
}

/// A field of an address string.
#[derive(Debug, Clone, Copy, PartialEq, Eq)]
pub enum AddressField {
    SlaveId,
    Register,
    FunctionCode,
    Ioa,
    TypeId,
    Namespace,
    GpioPin,
    IeeeAddr,
    Endpoint,
    ClusterId,
    AttrId,
    AttributeId,
}

/// Why an address string was refused.
#[derive(Debug, Clone, Copy, PartialEq, Eq)]
pub enum AddressError {
    /// A Modbus address without a register part.
    InvalidModbusFormat,
    /// A decimal field that does not parse, or does not fit its type.
    Invalid(AddressField),
    /// A `0x` hex field that does not parse, or does not fit its type.
    InvalidHex(AddressField),
    /// An OPC UA address with `ns=` but no `;`.
    InvalidOpcUaFormat,
    /// An OPC UA node id not of the form `i=`, `s=`, `g=` or `b=`.
    InvalidOpcUaNodeId,
    /// A GPIO direction other than input/in/di or output/out/do.
    InvalidGpioDirection,
    /// A DL/T 645 identifier that is not 8 hex digits.
    InvalidDl645Address,
    /// A BLE address without `/`.
    InvalidBleFormat,
    /// A BLE address with an empty UUID part.
    EmptyBleUuid,
    /// A Zigbee address without exactly four `/`-separated parts.
    InvalidZigbeeFormat,
    /// A Matter address without exactly three `/`-separated parts.
    InvalidMatterFormat,
    /// An IEC 61850 address without domain and item.
    InvalidIec61850Address,
    /// A protocol name that no parser knows.
    UnknownProtocol,
}

/// The mathematical content of a parse result.
pub open spec fn result_view(r: Result<ProtocolAddress, AddressError>) -> Result<AddressView, AddressError> {
    match r {
        Ok(a) => Ok(a@),
        Err(e) => Err(e),
    }
}

/// DL/T 645 data identifier address.
#[derive(Debug, Clone, Copy, PartialEq, Eq)]
pub struct Dl645Address {
    pub di_code: u32,
}

/// Whether `s` starts with "0x" or "0X".
pub open spec fn spec_has_hex_prefix(s: Seq<char>) -> bool {
    s.len() >= 2 && s[0] == '0' && (s[1] == 'x' || s[1] == 'X')
}

pub(crate) fn has_hex_prefix(cs: &[char]) -> (b: bool)
    ensures
        b == spec_has_hex_prefix(cs@),
{
    cs.len() >= 2 && cs[0] == '0' && (cs[1] == 'x' || cs[1] == 'X')
}

/// A DL/T 645 identifier: 8 hex digits, optionally prefixed by 0x.
pub open spec fn spec_dl645(s: Seq<char>) -> Result<u32, AddressError> {
    let t = if spec_has_hex_prefix(s) {
        s.skip(2)
    } else {
        s
    };
    if t.len() == 8 && spec_all_digits(t, 16) {
        Ok(spec_digits_value(t, 16) as u32)
    } else {
        Err(AddressError::InvalidDl645Address)
    }
}

proof fn lemma_digits_value_bound(s: Seq<char>, radix: nat)
    requires
        spec_all_digits(s, radix),
        radix >= 1,
    ensures
        spec_digits_value(s, radix) < vstd::arithmetic::power::pow(radix as int, s.len()),
    decreases s.len(),
{
    if s.len() == 0 {
        vstd::arithmetic::power::lemma_pow0(radix as int);
    } else {
        let t = s.drop_last();
        assert forall|i: int| 0 <= i < t.len() implies (#[trigger] spec_digit(t[i], radix)).is_some() by {
            assert(t[i] == s[i]);
        }
        lemma_digits_value_bound(t, radix);
        assert(spec_digit(s[s.len() - 1], radix).is_some());
        let v = spec_digits_value(t, radix);
        let p = vstd::arithmetic::power::pow(radix as int, t.len());
        let d = spec_digit(s.last(), radix).unwrap();
        assert(d < radix);
        assert(spec_digits_value(s, radix) == v * radix + d);
        vstd::arithmetic::power::lemma_pow_adds(radix as int, t.len(), 1);
        vstd::arithmetic::power::lemma_pow1(radix as int);
        assert(t.len() + 1 == s.len());
        assert(vstd::arithmetic::power::pow(radix as int, s.len()) == p * radix);
        assert(v * radix + d < p * radix) by (nonlinear_arith)
            requires
                v < p,
                d < radix,
        ;
    }
}

/// Eight hex digits (DI3..DI0) as a character sequence.
pub open spec fn spec_hex8_text(v: u32) -> Seq<char> {
    seq![
        spec_hex_upper(((v / 0x1000_0000) % 16) as u8),
        spec_hex_upper(((v / 0x100_0000) % 16) as u8),
        spec_hex_upper(((v / 0x10_0000) % 16) as u8),
        spec_hex_upper(((v / 0x1_0000) % 16) as u8),
        spec_hex_upper(((v / 0x1000) % 16) as u8),
        spec_hex_upper(((v / 0x100) % 16) as u8),
        spec_hex_upper(((v / 0x10) % 16) as u8),
        spec_hex_upper((v % 16) as u8),
    ]
}

impl Dl645Address {
    /// Parse an identifier: 8 hex digits DI3..DI0, optionally prefixed by 0x.
    pub fn parse(s: &str) -> (r: Result<Dl645Address, AddressError>)
        ensures
            match spec_dl645(s@) {
                Ok(v) => r == Ok::<Dl645Address, AddressError>(Dl645Address { di_code: v }),
                Err(e) => r == Err::<Dl645Address, AddressError>(e),
            },
    {
        let cs = chars_of(s);
        dl645_from_chars(cs.as_slice())
    }

    /// The identifier as 8 upper-case hex digits.
    pub fn to_hex_string(&self) -> (t: String)
        ensures
            t@ == spec_hex8_text(self.di_code),
    {
        let v = self.di_code;
        let mut t = String::new();
        push_char(&mut t, hex_upper(((v / 0x1000_0000) % 16) as u8));
        push_char(&mut t, hex_upper(((v / 0x100_0000) % 16) as u8));
        push_char(&mut t, hex_upper(((v / 0x10_0000) % 16) as u8));
        push_char(&mut t, hex_upper(((v / 0x1_0000) % 16) as u8));
        push_char(&mut t, hex_upper(((v / 0x1000) % 16) as u8));
        push_char(&mut t, hex_upper(((v / 0x100) % 16) as u8));
        push_char(&mut t, hex_upper(((v / 0x10) % 16) as u8));
        push_char(&mut t, hex_upper((v % 16) as u8));
        assert(t@ =~= spec_hex8_text(v));
        t
    }
}

fn dl645_from_chars(cs: &[char]) -> (r: Result<Dl645Address, AddressError>)
    ensures
        match spec_dl645(cs@) {
            Ok(v) => r == Ok::<Dl645Address, AddressError>(Dl645Address { di_code: v }),
            Err(e) => r == Err::<Dl645Address, AddressError>(e),
        },
{
    let start: usize = if has_hex_prefix(cs) { 2 } else { 0 };
    let t = slice_range(cs, start, cs.len());
    let ghost body = if spec_has_hex_prefix(cs@) { cs@.skip(2) } else { cs@ };
    assert(t@ =~= body);
    if t.len() != 8 {
        return Err(AddressError::InvalidDl645Address);
    }
    let mut i: usize = 0;
    while i < 8
        invariant
            i <= 8,
            t@.len() == 8,
            t@ == body,
            body == (if spec_has_hex_prefix(cs@) { cs@.skip(2) } else { cs@ }),
            forall|j: int| 0 <= j < i ==> (#[trigger] spec_digit(t@[j], 16)).is_some(),
        decreases 8 - i,
    {
        let c = t[i];
        let v = c as u32;
        let ok = (48 <= v && v <= 57) || (97 <= v && v <= 102) || (65 <= v && v <= 70);
        if !ok {
            assert(spec_digit(t@[i as int], 16).is_none());
            assert(!spec_all_digits(body, 16));
            return Err(AddressError::InvalidDl645Address);
        }
        i += 1;
    }
    proof {
        assert(spec_all_digits(body, 16));
        lemma_digits_value_bound(t@, 16);
        assert(vstd::arithmetic::power::pow(16, 8) == 0x1_0000_0000) by {
            reveal_with_fuel(vstd::arithmetic::power::pow, 9);
        }
        assert(spec_digit(t@[0], 16).is_some());
        assert(t@[0] != '+');
        assert(spec_parse_uint(t@, 16, 0xFFFF_FFFF) == Some(spec_digits_value(body, 16)));
    }
    match parse_uint(t.as_slice(), 16, 0xFFFF_FFFF) {
        Some(v) => Ok(Dl645Address { di_code: v as u32 }),
        None => Err(AddressError::InvalidDl645Address),
    }
}


// ── Modbus ─────────────────────────────────────────────────────────────────────

/// "slave_id:register" or "slave_id:register:function_code" (function code 3 by
/// default); the value format, byte order and bit position are the defaults.
pub open spec fn spec_modbus(s: Seq<char>) -> Result<AddressView, AddressError> {
    let n = s.len() as int;
    let p1 = spec_find_from(s, ':', 0);
    if p1 >= n {
        Err(AddressError::InvalidModbusFormat)
    } else {
        let p2 = spec_find_from(s, ':', p1 + 1);
        match spec_parse_uint(s.subrange(0, p1), 10, 0xFF) {
            None => Err(AddressError::Invalid(AddressField::SlaveId)),
            Some(slave_id) => match spec_parse_uint(s.subrange(p1 + 1, p2), 10, 0xFFFF) {
                None => Err(AddressError::Invalid(AddressField::Register)),
                Some(register) => if p2 < n {
                    match spec_parse_uint(s.subrange(p2 + 1, n), 10, 0xFF) {
                        None => Err(AddressError::Invalid(AddressField::FunctionCode)),
                        Some(fc) => Ok(
                            AddressView::Modbus(
                                ModbusAddress {
                                    slave_id: slave_id as u8,
                                    register: register as u16,
                                    function_code: fc as u8,
                                    format: DataFormat::UInt16,
                                    byte_order: ByteOrder::Abcd,
                                    bit_position: None,
                                },
                            ),
                        ),
                    }
                } else {
                    Ok(
                        AddressView::Modbus(
                            ModbusAddress {
                                slave_id: slave_id as u8,
                                register: register as u16,
                                function_code: 3,
                                format: DataFormat::UInt16,
                                byte_order: ByteOrder::Abcd,
                                bit_position: None,
                            },
                        ),
                    )
                },
            },
        }
    }
}

/// A Modbus address `slave:register` (parts without ':') reads the slave id and
/// register as decimal numbers and takes function code 3 (holding registers);
/// `slave:register:fc` takes the function code from its third part. The value
/// format, byte order and bit position are the defaults (unsigned 16-bit, big
/// endian, none).
pub proof fn lemma_modbus_address_fields(slave: Seq<char>, register: Seq<char>, fc: Option<Seq<char>>)
    requires
        forall|j: int| 0 <= j < slave.len() ==> slave[j] != ':',
        forall|j: int| 0 <= j < register.len() ==> register[j] != ':',
    ensures
        ({
            let s = match fc {
                None => slave + seq![':'] + register,
                Some(f) => slave + seq![':'] + register + seq![':'] + f,
            };
            let code: Option<nat> = match fc {
                None => Some(3nat),
                Some(f) => spec_parse_uint(f, 10, 0xFF),
            };
            match (spec_parse_uint(slave, 10, 0xFF), spec_parse_uint(register, 10, 0xFFFF), code) {
                (None, _, _) => spec_modbus(s) == Err::<AddressView, AddressError>(
                    AddressError::Invalid(AddressField::SlaveId),
                ),
                (Some(_), None, _) => spec_modbus(s) == Err::<AddressView, AddressError>(
                    AddressError::Invalid(AddressField::Register),
                ),
                (Some(_), Some(_), None) => spec_modbus(s) == Err::<AddressView, AddressError>(
                    AddressError::Invalid(AddressField::FunctionCode),
                ),
                (Some(a), Some(r), Some(c)) => spec_modbus(s) == Ok::<AddressView, AddressError>(
                    AddressView::Modbus(
                        ModbusAddress {
                            slave_id: a as u8,
                            register: r as u16,
                            function_code: c as u8,
                            format: DataFormat::UInt16,
                            byte_order: ByteOrder::Abcd,
                            bit_position: None,
                        },
                    ),
                ),
            }
        }),
{
    let s = match fc {
        None => slave + seq![':'] + register,
        Some(f) => slave + seq![':'] + register + seq![':'] + f,
    };
    let p1 = slave.len() as int;
    let p2 = p1 + 1 + register.len();
    assert forall|j: int| 0 <= j < p1 implies s[j] != ':' by {
        assert(s[j] == slave[j]);
    }
    lemma_find_first(s, ':', 0, p1);
    assert forall|j: int| p1 + 1 <= j < p2 implies s[j] != ':' by {
        assert(s[j] == register[j - p1 - 1]);
    }
    lemma_find_first(s, ':', p1 + 1, p2);
    assert(s.subrange(0, p1) =~= slave);
    assert(s.subrange(p1 + 1, p2) =~= register);
    if let Some(f) = fc {
        assert(s.subrange(p2 + 1, s.len() as int) =~= f);
    }
}

fn parse_dec_field(cs: &[char], a: usize, b: usize, max: u64, field: AddressField) -> (r: Result<
    u64,
    AddressError,
>)
    requires
        a <= b <= cs@.len(),
    ensures
        match spec_parse_uint(cs@.subrange(a as int, b as int), 10, max as nat) {
            Some(v) => r == Ok::<u64, AddressError>(v as u64),
            None => r == Err::<u64, AddressError>(AddressError::Invalid(field)),
        },
{
    let part = slice_range(cs, a, b);
    match parse_uint(part.as_slice(), 10, max) {
        Some(v) => Ok(v),
        None => Err(AddressError::Invalid(field)),
    }
}

fn modbus_from_chars(cs: &[char]) -> (r: Result<ProtocolAddress, AddressError>)
    ensures
        result_view(r) == spec_modbus(cs@),
{
    let n = cs.len();
    let p1 = find_char(cs, ':', 0);
    if p1 >= n {
        return Err(AddressError::InvalidModbusFormat);
    }
    let p2 = find_char(cs, ':', p1 + 1);
    let slave_id = parse_dec_field(cs, 0, p1, 0xFF, AddressField::SlaveId)?;
    let register = parse_dec_field(cs, p1 + 1, p2, 0xFFFF, AddressField::Register)?;
    let function_code = if p2 < n {
        parse_dec_field(cs, p2 + 1, n, 0xFF, AddressField::FunctionCode)?
    } else {
        3
    };
    Ok(
        ProtocolAddress::Modbus(
            ModbusAddress {
                slave_id: slave_id as u8,
                register: register as u16,
                function_code: function_code as u8,
                format: DataFormat::default(),
                byte_order: ByteOrder::default(),
                bit_position: None,
            },
        ),
    )
}

/// Parse a Modbus address: "slave_id:register" or "slave_id:register:function_code".
pub fn parse_modbus_address(address: &str) -> (r: Result<ProtocolAddress, AddressError>)
    ensures
        result_view(r) == spec_modbus(address@),
{
    let cs = chars_of(address);
    modbus_from_chars(cs.as_slice())
}

// ── IEC 104 ────────────────────────────────────────────────────────────────────

/// "ioa" or "ioa:type_id" (type id 0 when absent or empty); common address 1.
pub open spec fn spec_iec104(s: Seq<char>) -> Result<AddressView, AddressError> {
    let n = s.len() as int;
    let p = spec_find_from(s, ':', 0);
    let ioa_s = s.subrange(0, p);
    let ty_s = if p < n {
        s.subrange(p + 1, n)
    } else {
        Seq::<char>::empty()
    };
    match spec_parse_uint(ioa_s, 10, 0xFFFF_FFFF) {
        None => Err(AddressError::Invalid(AddressField::Ioa)),
        Some(ioa) => if ty_s.len() == 0 {
            Ok(AddressView::Iec104(Iec104Address { ioa: ioa as u32, type_id: 0, common_address: 1 }))
        } else {
            match spec_parse_uint(ty_s, 10, 0xFF) {
                None => Err(AddressError::Invalid(AddressField::TypeId)),
                Some(t) => Ok(
                    AddressView::Iec104(
                        Iec104Address { ioa: ioa as u32, type_id: t as u8, common_address: 1 },
                    ),
                ),
            }
        },
    }
}

fn iec104_from_chars(cs: &[char]) -> (r: Result<ProtocolAddress, AddressError>)
    ensures
        result_view(r) == spec_iec104(cs@),
{
    let n = cs.len();
    let p = find_char(cs, ':', 0);
    let ioa = parse_dec_field(cs, 0, p, 0xFFFF_FFFF, AddressField::Ioa)?;
    let type_id = if p < n && p + 1 < n {
        parse_dec_field(cs, p + 1, n, 0xFF, AddressField::TypeId)?
    } else {
        0
    };
    Ok(ProtocolAddress::Iec104(Iec104Address { ioa: ioa as u32, type_id: type_id as u8, common_address: 1 }))
}

/// Parse an IEC 104 address: "ioa" or "ioa:type_id".
pub fn parse_iec104_address(address: &str) -> (r: Result<ProtocolAddress, AddressError>)
    ensures
        result_view(r) == spec_iec104(address@),
{
    let cs = chars_of(address);
    iec104_from_chars(cs.as_slice())
}

// ── OPC UA ─────────────────────────────────────────────────────────────────────

/// Whether a node id has one of the forms i=, s=, g=, b=.
pub open spec fn spec_valid_node_id(s: Seq<char>) -> bool {
    s.len() >= 2 && (s[0] == 'i' || s[0] == 's' || s[0] == 'g' || s[0] == 'b') && s[1] == '='
}

/// "ns=N;i=ID", "ns=N;s=Name", ... or a bare node id in namespace 0.
pub open spec fn spec_opcua(s: Seq<char>) -> Result<AddressView, AddressError> {
    let n = s.len() as int;
    if spec_starts_with(s, seq!['n', 's', '=']) {
        let semi = spec_find_from(s, ';', 0);
        if semi >= n {
            Err(AddressError::InvalidOpcUaFormat)
        } else {
            match spec_parse_uint(s.subrange(3, semi), 10, 0xFFFF) {
                None => Err(AddressError::Invalid(AddressField::Namespace)),
                Some(ns) => {
                    let node = s.subrange(semi + 1, n);
                    if spec_valid_node_id(node) {
                        Ok(AddressView::OpcUa { node_id: node, namespace_index: ns as u16 })
                    } else {
                        Err(AddressError::InvalidOpcUaNodeId)
                    }
                },
            }
        }
    } else if spec_valid_node_id(s) {
        Ok(AddressView::OpcUa { node_id: s, namespace_index: 0 })
    } else {
        Err(AddressError::InvalidOpcUaNodeId)
    }
}

fn valid_node_id(cs: &[char]) -> (b: bool)
    ensures
        b == spec_valid_node_id(cs@),
{
    cs.len() >= 2 && (cs[0] == 'i' || cs[0] == 's' || cs[0] == 'g' || cs[0] == 'b') && cs[1] == '='
}

fn opcua_from_chars(cs: &[char]) -> (r: Result<ProtocolAddress, AddressError>)
    ensures
        result_view(r) == spec_opcua(cs@),
{
    let n = cs.len();
    let ns_prefix: [char; 3] = ['n', 's', '='];
    assert(ns_prefix@ =~= seq!['n', 's', '=']);
    let (namespace_index, start): (u16, usize) = if starts_with(cs, ns_prefix.as_slice()) {
        let semi = find_char(cs, ';', 0);
        if semi >= n {
            return Err(AddressError::InvalidOpcUaFormat);
        }
        assert(cs@.take(3)[0] == 'n' && cs@.take(3)[1] == 's' && cs@.take(3)[2] == '=');
        assert(semi >= 3);
        let ns = parse_dec_field(cs, 3, semi, 0xFFFF, AddressField::Namespace)?;
        (ns as u16, semi + 1)
    } else {
        (0, 0)
    };
    let node = slice_range(cs, start, n);
    if !valid_node_id(node.as_slice()) {
        return Err(AddressError::InvalidOpcUaNodeId);
    }
    assert(start == 0 ==> node@ =~= cs@);
    Ok(ProtocolAddress::OpcUa(OpcUaAddress { node_id: string_from_chars(node.as_slice()), namespace_index }))
}

/// Parse an OPC UA address: "ns=N;i=ID", "ns=N;s=Name" or "i=ID".
pub fn parse_opcua_address(address: &str) -> (r: Result<ProtocolAddress, AddressError>)
    ensures
        result_view(r) == spec_opcua(address@),
{
    let cs = chars_of(address);
    opcua_from_chars(cs.as_slice())
}

// ── GPIO ───────────────────────────────────────────────────────────────────────

/// The chip used when an address names none.
pub open spec fn spec_default_chip() -> Seq<char> {
    seq!['g', 'p', 'i', 'o', 'c', 'h', 'i', 'p', '0']
}

/// Whether a direction word means input: "input", "in" or "di", in any ASCII case.
pub open spec fn spec_is_input_dir(d: Seq<char>) -> bool {
    spec_eq_ignore_ascii_case(d, seq!['i', 'n', 'p', 'u', 't'])
        || spec_eq_ignore_ascii_case(d, seq!['i', 'n'])
        || spec_eq_ignore_ascii_case(d, seq!['d', 'i'])
}

/// Whether a direction word means output: "output", "out" or "do", in any ASCII case.
pub open spec fn spec_is_output_dir(d: Seq<char>) -> bool {
    spec_eq_ignore_ascii_case(d, seq!['o', 'u', 't', 'p', 'u', 't'])
        || spec_eq_ignore_ascii_case(d, seq!['o', 'u', 't'])
        || spec_eq_ignore_ascii_case(d, seq!['d', 'o'])
}

/// "pin", "chip:pin" or "chip:pin:direction"; the chip defaults to gpiochip0 and the
/// direction to input.
pub open spec fn spec_gpio(s: Seq<char>) -> Result<AddressView, AddressError> {
    let n = s.len() as int;
    let p1 = spec_find_from(s, ':', 0);
    if p1 >= n {
        match spec_parse_uint(s, 10, 0xFFFF_FFFF) {
            None => Err(AddressError::Invalid(AddressField::GpioPin)),
            Some(pin) => Ok(
                AddressView::Gpio {
                    chip: spec_default_chip(),
                    pin: pin as u32,
                    direction: GpioDirection::Input,
                },
            ),
        }
    } else {
        let p2 = spec_find_from(s, ':', p1 + 1);
        let chip = s.subrange(0, p1);
        match spec_parse_uint(s.subrange(p1 + 1, p2), 10, 0xFFFF_FFFF) {
            None => Err(AddressError::Invalid(AddressField::GpioPin)),
            Some(pin) => if p2 >= n {
                Ok(AddressView::Gpio { chip, pin: pin as u32, direction: GpioDirection::Input })
            } else {
                let dir = s.subrange(p2 + 1, n);
                if spec_is_input_dir(dir) {
                    Ok(AddressView::Gpio { chip, pin: pin as u32, direction: GpioDirection::Input })
                } else if spec_is_output_dir(dir) {
                    Ok(
                        AddressView::Gpio {
                            chip,
                            pin: pin as u32,
                            direction: GpioDirection::Output,
                        },
                    )
                } else {
                    Err(AddressError::InvalidGpioDirection)
                }
            },
        }
    }
}

proof fn lemma_find_first(s: Seq<char>, c: char, i: int, k: int)
    requires
        0 <= i <= k <= s.len(),
        forall|j: int| i <= j < k ==> s[j] != c,
        k < s.len() ==> s[k] == c,
    ensures
        spec_find_from(s, c, i) == k,
    decreases k - i,
{
    if i < k {
        lemma_find_first(s, c, i + 1, k);
    }
}

/// A GPIO address `chip:pin:dir` (chip and pin text without ':') names that chip
/// and pin, and its direction word decides the direction: "output", "out" or
/// "do" in any ASCII case give Output, "input", "in" or "di" give Input, and any
/// other word is refused. A pin text that is not a decimal 32-bit number is
/// refused.
pub proof fn lemma_gpio_direction_words(chip: Seq<char>, pin_text: Seq<char>, dir: Seq<char>)
    requires
        forall|j: int| 0 <= j < chip.len() ==> chip[j] != ':',
        forall|j: int| 0 <= j < pin_text.len() ==> pin_text[j] != ':',
    ensures
        ({
            let s = chip + seq![':'] + pin_text + seq![':'] + dir;
            let out = spec_eq_ignore_ascii_case(dir, seq!['o', 'u', 't', 'p', 'u', 't'])
                || spec_eq_ignore_ascii_case(dir, seq!['o', 'u', 't'])
                || spec_eq_ignore_ascii_case(dir, seq!['d', 'o']);
            let inp = spec_eq_ignore_ascii_case(dir, seq!['i', 'n', 'p', 'u', 't'])
                || spec_eq_ignore_ascii_case(dir, seq!['i', 'n'])
                || spec_eq_ignore_ascii_case(dir, seq!['d', 'i']);
            match spec_parse_uint(pin_text, 10, 0xFFFF_FFFF) {
                None => spec_gpio(s) == Err::<AddressView, AddressError>(
                    AddressError::Invalid(AddressField::GpioPin),
                ),
                Some(p) => {
                    &&& out ==> spec_gpio(s) == Ok::<AddressView, AddressError>(
                        AddressView::Gpio { chip, pin: p as u32, direction: GpioDirection::Output },
                    )
                    &&& inp ==> spec_gpio(s) == Ok::<AddressView, AddressError>(
                        AddressView::Gpio { chip, pin: p as u32, direction: GpioDirection::Input },
                    )
                    &&& !out && !inp ==> spec_gpio(s) == Err::<AddressView, AddressError>(
                        AddressError::InvalidGpioDirection,
                    )
                },
            }
        }),
{
    let s = chip + seq![':'] + pin_text + seq![':'] + dir;
    let p1 = chip.len() as int;
    let p2 = p1 + 1 + pin_text.len();
    assert forall|j: int| 0 <= j < p1 implies s[j] != ':' by {
        assert(s[j] == chip[j]);
    }
    lemma_find_first(s, ':', 0, p1);
    assert forall|j: int| p1 + 1 <= j < p2 implies s[j] != ':' by {
        assert(s[j] == pin_text[j - p1 - 1]);
    }
    lemma_find_first(s, ':', p1 + 1, p2);
    assert(s.subrange(0, p1) =~= chip);
    assert(s.subrange(p1 + 1, p2) =~= pin_text);
    assert(s.subrange(p2 + 1, s.len() as int) =~= dir);
    let o = seq!['d', 'o'];
    let i1 = seq!['i', 'n'];
    let i2 = seq!['d', 'i'];
    assert(spec_eq_ignore_ascii_case(dir, o) ==> !spec_eq_ignore_ascii_case(dir, i1)) by {
        if spec_eq_ignore_ascii_case(dir, o) && spec_eq_ignore_ascii_case(dir, i1) {
            assert(spec_ascii_lower(dir[0]) == spec_ascii_lower(o[0]));
            assert(spec_ascii_lower(dir[0]) == spec_ascii_lower(i1[0]));
        }
    }
    assert(spec_eq_ignore_ascii_case(dir, o) ==> !spec_eq_ignore_ascii_case(dir, i2)) by {
        if spec_eq_ignore_ascii_case(dir, o) && spec_eq_ignore_ascii_case(dir, i2) {
            assert(spec_ascii_lower(dir[1]) == spec_ascii_lower(o[1]));
            assert(spec_ascii_lower(dir[1]) == spec_ascii_lower(i2[1]));
        }
    }
}

fn is_input_dir(d: &[char]) -> (b: bool)
    ensures
        b == spec_is_input_dir(d@),
{
    let w1: [char; 5] = ['i', 'n', 'p', 'u', 't'];
    let w2: [char; 2] = ['i', 'n'];
    let w3: [char; 2] = ['d', 'i'];
    assert(w1@ =~= seq!['i', 'n', 'p', 'u', 't']);
    assert(w2@ =~= seq!['i', 'n']);
    assert(w3@ =~= seq!['d', 'i']);
    eq_ignore_ascii_case(d, w1.as_slice()) || eq_ignore_ascii_case(d, w2.as_slice())
        || eq_ignore_ascii_case(d, w3.as_slice())
}

fn is_output_dir(d: &[char]) -> (b: bool)
    ensures
        b == spec_is_output_dir(d@),
{
    let w1: [char; 6] = ['o', 'u', 't', 'p', 'u', 't'];
    let w2: [char; 3] = ['o', 'u', 't'];
    let w3: [char; 2] = ['d', 'o'];
    assert(w1@ =~= seq!['o', 'u', 't', 'p', 'u', 't']);
    assert(w2@ =~= seq!['o', 'u', 't']);
    assert(w3@ =~= seq!['d', 'o']);
    eq_ignore_ascii_case(d, w1.as_slice()) || eq_ignore_ascii_case(d, w2.as_slice())
        || eq_ignore_ascii_case(d, w3.as_slice())
}

fn default_chip() -> (s: String)
    ensures
        s@ == spec_default_chip(),
{
    let cs: [char; 9] = ['g', 'p', 'i', 'o', 'c', 'h', 'i', 'p', '0'];
    assert(cs@ =~= spec_default_chip());
    string_from_chars(cs.as_slice())
}

fn gpio_from_chars(cs: &[char]) -> (r: Result<ProtocolAddress, AddressError>)
    ensures
        result_view(r) == spec_gpio(cs@),
{
    let n = cs.len();
    let p1 = find_char(cs, ':', 0);
    if p1 >= n {
        assert(cs@.subrange(0, n as int) =~= cs@);
        let pin = parse_dec_field(cs, 0, n, 0xFFFF_FFFF, AddressField::GpioPin)?;
        return Ok(ProtocolAddress::Gpio(GpioAddress::digital_input(default_chip(), pin as u32)));
    }
    let p2 = find_char(cs, ':', p1 + 1);
    let chip = string_from_chars(slice_range(cs, 0, p1).as_slice());
    let pin = parse_dec_field(cs, p1 + 1, p2, 0xFFFF_FFFF, AddressField::GpioPin)?;
    if p2 >= n {
        return Ok(ProtocolAddress::Gpio(GpioAddress::digital_input(chip, pin as u32)));
    }
    let dir = slice_range(cs, p2 + 1, n);
    if is_input_dir(dir.as_slice()) {
        Ok(ProtocolAddress::Gpio(GpioAddress::digital_input(chip, pin as u32)))
    } else if is_output_dir(dir.as_slice()) {
        Ok(ProtocolAddress::Gpio(GpioAddress::digital_output(chip, pin as u32)))
    } else {
        Err(AddressError::InvalidGpioDirection)
    }
}

/// Parse a GPIO address: "pin", "chip:pin" or "chip:pin:direction".
pub fn parse_gpio_address(address: &str) -> (r: Result<ProtocolAddress, AddressError>)
    ensures
        result_view(r) == spec_gpio(address@),
{
    let cs = chars_of(address);
    gpio_from_chars(cs.as_slice())
}

/// Parse a DL/T 645 address (a data identifier).
pub fn parse_dl645_address(address: &str) -> (r: Result<ProtocolAddress, AddressError>)
    ensures
        result_view(r) == (match spec_dl645(address@) {
            Ok(v) => Ok::<AddressView, AddressError>(AddressView::Dl645(v)),
            Err(e) => Err(e),
        }),
{
    match Dl645Address::parse(address) {
        Ok(a) => Ok(ProtocolAddress::Dl645(a)),
        Err(e) => Err(e),
    }
}

// ── BLE ────────────────────────────────────────────────────────────────────────

/// The suffix that asks for notifications in place of polling.
pub open spec fn spec_notify_suffix() -> Seq<char> {
    seq![':', 'n', 'o', 't', 'i', 'f', 'y']
}

/// "service_uuid/char_uuid" or "service_uuid/char_uuid:notify", white space trimmed
/// around the whole and around each UUID; the value format is the default.
pub open spec fn spec_ble(s: Seq<char>) -> Result<AddressView, AddressError> {
    let t = spec_trim(s);
    let notify = spec_ends_with(t, spec_notify_suffix());
    let u = if notify {
        t.take(t.len() - 7)
    } else {
        t
    };
    let slash = spec_find_from(u, '/', 0);
    if slash >= u.len() {
        Err(AddressError::InvalidBleFormat)
    } else {
        let svc = spec_trim(u.subrange(0, slash));
        let ch = spec_trim(u.subrange(slash + 1, u.len() as int));
        if svc.len() == 0 || ch.len() == 0 {
            Err(AddressError::EmptyBleUuid)
        } else {
            Ok(
                AddressView::Ble {
                    service_uuid: svc,
                    characteristic_uuid: ch,
                    data_format: DataFormat::UInt16,
                    notify,
                },
            )
        }
    }
}

fn ble_from_chars(cs: &[char]) -> (r: Result<ProtocolAddress, AddressError>)
    ensures
        result_view(r) == spec_ble(cs@),
{
    let t = trim_chars(cs);
    let suffix: [char; 7] = [':', 'n', 'o', 't', 'i', 'f', 'y'];
    assert(suffix@ =~= spec_notify_suffix());
    let notify = ends_with(t.as_slice(), suffix.as_slice());
    let u = if notify {
        slice_range(t.as_slice(), 0, t.len() - 7)
    } else {
        t
    };
    let n = u.len();
    let slash = find_char(u.as_slice(), '/', 0);
    if slash >= n {
        return Err(AddressError::InvalidBleFormat);
    }
    let svc = trim_chars(slice_range(u.as_slice(), 0, slash).as_slice());
    let ch = trim_chars(slice_range(u.as_slice(), slash + 1, n).as_slice());
    if svc.len() == 0 || ch.len() == 0 {
        return Err(AddressError::EmptyBleUuid);
    }
    Ok(
        ProtocolAddress::Ble(
            BleAddress {
                service_uuid: string_from_chars(svc.as_slice()),
                characteristic_uuid: string_from_chars(ch.as_slice()),
                data_format: DataFormat::default(),
                notify,
            },
        ),
    )
}

/// Parse a BLE address: "service_uuid/char_uuid" or "service_uuid/char_uuid:notify".
pub fn parse_ble_address(address: &str) -> (r: Result<ProtocolAddress, AddressError>)
    ensures
        result_view(r) == spec_ble(address@),
{
    let cs = chars_of(address);
    ble_from_chars(cs.as_slice())
}

// ── Zigbee and Matter ──────────────────────────────────────────────────────────

/// A trimmed field in hex after "0x"/"0X", or in decimal otherwise, at most `max`.
pub open spec fn spec_prefixed_uint(s: Seq<char>, max: nat, field: AddressField) -> Result<
    nat,
    AddressError,
> {
    let t = spec_trim(s);
    if spec_has_hex_prefix(t) {
        match spec_parse_uint(t.skip(2), 16, max) {
            Some(v) => Ok(v),
            None => Err(AddressError::InvalidHex(field)),
        }
    } else {
        match spec_parse_uint(t, 10, max) {
            Some(v) => Ok(v),
            None => Err(AddressError::Invalid(field)),
        }
    }
}

fn parse_prefixed_field(cs: &[char], a: usize, b: usize, max: u64, field: AddressField) -> (r:
    Result<u64, AddressError>)
    requires
        a <= b <= cs@.len(),
    ensures
        match spec_prefixed_uint(cs@.subrange(a as int, b as int), max as nat, field) {
            Ok(v) => r == Ok::<u64, AddressError>(v as u64),
            Err(e) => r == Err::<u64, AddressError>(e),
        },
{
    let t = trim_chars(slice_range(cs, a, b).as_slice());
    if has_hex_prefix(t.as_slice()) {
        let h = slice_range(t.as_slice(), 2, t.len());
        assert(h@ =~= t@.skip(2));
        match parse_uint(h.as_slice(), 16, max) {
            Some(v) => Ok(v),
            None => Err(AddressError::InvalidHex(field)),
        }
    } else {
        match parse_uint(t.as_slice(), 10, max) {
            Some(v) => Ok(v),
            None => Err(AddressError::Invalid(field)),
        }
    }
}

/// "ieee_addr/endpoint/cluster_id/attr_id", each field hex (0x) or decimal.
pub open spec fn spec_zigbee(s: Seq<char>) -> Result<AddressView, AddressError> {
    let n = s.len() as int;
    let p1 = spec_find_from(s, '/', 0);
    let p2 = spec_find_from(s, '/', p1 + 1);
    let p3 = spec_find_from(s, '/', p2 + 1);
    let p4 = spec_find_from(s, '/', p3 + 1);
    if !(p1 < n && p2 < n && p3 < n && p4 >= n) {
        Err(AddressError::InvalidZigbeeFormat)
    } else {
        match spec_prefixed_uint(s.subrange(0, p1), 0xFFFF_FFFF_FFFF_FFFF, AddressField::IeeeAddr) {
            Err(e) => Err(e),
            Ok(ieee) => match spec_prefixed_uint(
                s.subrange(p1 + 1, p2),
                0xFF,
                AddressField::Endpoint,
            ) {
                Err(e) => Err(e),
                Ok(ep) => match spec_prefixed_uint(
                    s.subrange(p2 + 1, p3),
                    0xFFFF,
                    AddressField::ClusterId,
                ) {
                    Err(e) => Err(e),
                    Ok(cl) => match spec_prefixed_uint(
                        s.subrange(p3 + 1, n),
                        0xFFFF,
                        AddressField::AttrId,
                    ) {
                        Err(e) => Err(e),
                        Ok(at) => Ok(
                            AddressView::Zigbee(
                                ZigbeeAddress {
                                    ieee_address: ieee as u64,
                                    endpoint: ep as u8,
                                    cluster_id: cl as u16,
                                    attribute_id: at as u16,
                                },
                            ),
                        ),
                    },
                },
            },
        }
    }
}

fn zigbee_from_chars(cs: &[char]) -> (r: Result<ProtocolAddress, AddressError>)
    ensures
        result_view(r) == spec_zigbee(cs@),
{
    let n = cs.len();
    let p1 = find_char(cs, '/', 0);
    if p1 >= n {
        return Err(AddressError::InvalidZigbeeFormat);
    }
    let p2 = find_char(cs, '/', p1 + 1);
    if p2 >= n {
        return Err(AddressError::InvalidZigbeeFormat);
    }
    let p3 = find_char(cs, '/', p2 + 1);
    if p3 >= n {
        return Err(AddressError::InvalidZigbeeFormat);
    }
    let p4 = find_char(cs, '/', p3 + 1);
    if p4 < n {
        return Err(AddressError::InvalidZigbeeFormat);
    }
    let ieee = parse_prefixed_field(cs, 0, p1, 0xFFFF_FFFF_FFFF_FFFF, AddressField::IeeeAddr)?;
    let ep = parse_prefixed_field(cs, p1 + 1, p2, 0xFF, AddressField::Endpoint)?;
    let cl = parse_prefixed_field(cs, p2 + 1, p3, 0xFFFF, AddressField::ClusterId)?;
    let at = parse_prefixed_field(cs, p3 + 1, n, 0xFFFF, AddressField::AttrId)?;
    Ok(
        ProtocolAddress::Zigbee(
            ZigbeeAddress {
                ieee_address: ieee,
                endpoint: ep as u8,
                cluster_id: cl as u16,
                attribute_id: at as u16,
            },
        ),
    )
}

/// Parse a Zigbee address: "ieee_addr/endpoint/cluster_id/attr_id".
pub fn parse_zigbee_address(address: &str) -> (r: Result<ProtocolAddress, AddressError>)
    ensures
        result_view(r) == spec_zigbee(address@),
{
    let cs = chars_of(address);
    zigbee_from_chars(cs.as_slice())
}

/// "endpoint/cluster_id/attribute_id": a decimal endpoint, then two hex (0x) or
/// decimal ids.
pub open spec fn spec_matter(s: Seq<char>) -> Result<AddressView, AddressError> {
    let n = s.len() as int;
    let p1 = spec_find_from(s, '/', 0);
    let p2 = spec_find_from(s, '/', p1 + 1);
    let p3 = spec_find_from(s, '/', p2 + 1);
    if !(p1 < n && p2 < n && p3 >= n) {
        Err(AddressError::InvalidMatterFormat)
    } else {
        match spec_parse_uint(s.subrange(0, p1), 10, 0xFFFF) {
            None => Err(AddressError::Invalid(AddressField::Endpoint)),
            Some(ep) => match spec_prefixed_uint(
                s.subrange(p1 + 1, p2),
                0xFFFF_FFFF,
                AddressField::ClusterId,
            ) {
                Err(e) => Err(e),
                Ok(cl) => match spec_prefixed_uint(
                    s.subrange(p2 + 1, n),
                    0xFFFF_FFFF,
                    AddressField::AttributeId,
                ) {
                    Err(e) => Err(e),
                    Ok(at) => Ok(
                        AddressView::Matter(
                            MatterAddress {
                                endpoint: ep as u16,
                                cluster_id: cl as u32,
                                attribute_id: at as u32,
                            },
                        ),
                    ),
                },
            },
        }
    }
}

fn matter_from_chars(cs: &[char]) -> (r: Result<ProtocolAddress, AddressError>)
    ensures
        result_view(r) == spec_matter(cs@),
{
    let n = cs.len();
    let p1 = find_char(cs, '/', 0);
    if p1 >= n {
        return Err(AddressError::InvalidMatterFormat);
    }
    let p2 = find_char(cs, '/', p1 + 1);
    if p2 >= n {
        return Err(AddressError::InvalidMatterFormat);
    }
    let p3 = find_char(cs, '/', p2 + 1);
    if p3 < n {
        return Err(AddressError::InvalidMatterFormat);
    }
    let ep = parse_dec_field(cs, 0, p1, 0xFFFF, AddressField::Endpoint)?;
    let cl = parse_prefixed_field(cs, p1 + 1, p2, 0xFFFF_FFFF, AddressField::ClusterId)?;
    let at = parse_prefixed_field(cs, p2 + 1, n, 0xFFFF_FFFF, AddressField::AttributeId)?;
    Ok(ProtocolAddress::Matter(MatterAddress::new(ep as u16, cl as u32, at as u32)))
}

/// Parse a Matter address: "endpoint/cluster_id/attribute_id".
pub fn parse_matter_address(address: &str) -> (r: Result<ProtocolAddress, AddressError>)
    ensures
        result_view(r) == spec_matter(address@),
{
    let cs = chars_of(address);
    matter_from_chars(cs.as_slice())
}

// ── IEC 61850 ──────────────────────────────────────────────────────────────────

/// An MMS item name with `.` separators turned into `$`.
pub open spec fn spec_mms_item(s: Seq<char>) -> Seq<char> {
    s.map_values(|c: char| if c == '.' { '$' } else { c })
}

/// "domain/item", or "domain:item" when there is no '/'; both parts non-empty.
pub open spec fn spec_iec61850(s: Seq<char>) -> Result<AddressView, AddressError> {
    let n = s.len() as int;
    let slash = spec_find_from(s, '/', 0);
    let p = if slash < n {
        slash
    } else {
        spec_find_from(s, ':', 0)
    };
    if p >= n || p == 0 || p + 1 == n {
        Err(AddressError::InvalidIec61850Address)
    } else {
        Ok(
            AddressView::Iec61850 {
                domain: s.subrange(0, p),
                item: spec_mms_item(s.subrange(p + 1, n)),
            },
        )
    }
}

fn mms_item(cs: &[char]) -> (r: Vec<char>)
    ensures
        r@ == spec_mms_item(cs@),
{
    let mut r: Vec<char> = Vec::with_capacity(cs.len());
    let mut i: usize = 0;
    while i < cs.len()
        invariant
            i <= cs@.len(),
            r@ == spec_mms_item(cs@.take(i as int)),
        decreases cs@.len() - i,
    {
        let c = cs[i];
        r.push(if c == '.' { '$' } else { c });
        i += 1;
        assert(r@ =~= spec_mms_item(cs@.take(i as int)));
    }
    assert(cs@.take(cs@.len() as int) =~= cs@);
    r
}

impl Iec61850Address {
    /// Parse "domain/item" or "domain:item"; `.` in the item becomes `$`.
    pub fn parse(address: &str) -> (r: Result<Iec61850Address, AddressError>)
        ensures
            match spec_iec61850(address@) {
                Ok(v) => r matches Ok(a) && (AddressView::Iec61850 { domain: a.domain@, item: a.item@ })
                    == v,
                Err(e) => r == Err::<Iec61850Address, AddressError>(e),
            },
    {
        let cs = chars_of(address);
        let n = cs.len();
        let slash = find_char(cs.as_slice(), '/', 0);
        let p = if slash < n {
            slash
        } else {
            find_char(cs.as_slice(), ':', 0)
        };
        if p >= n || p == 0 || p + 1 == n {
            return Err(AddressError::InvalidIec61850Address);
        }
        let domain = string_from_chars(slice_range(cs.as_slice(), 0, p).as_slice());
        let item = string_from_chars(mms_item(slice_range(cs.as_slice(), p + 1, n).as_slice()).as_slice());
        Ok(Iec61850Address { domain, item })
    }
}

/// Parse an IEC 61850 address: "domain/item" or "domain:item".
pub fn parse_iec61850_address(address: &str) -> (r: Result<ProtocolAddress, AddressError>)
    ensures
        result_view(r) == spec_iec61850(address@),
{
    match Iec61850Address::parse(address) {
        Ok(a) => Ok(ProtocolAddress::Iec61850(a)),
        Err(e) => Err(e),
    }
}

// ── Dispatch ───────────────────────────────────────────────────────────────────

/// Whether a protocol name is `w`, ignoring ASCII case.
pub open spec fn spec_names(p: Seq<char>, w: Seq<char>) -> bool {
    spec_eq_ignore_ascii_case(p, w)
}

/// The address parser chosen by protocol name (ASCII case ignored); CAN addresses
/// are kept as given and virtual keys are taken whole.
pub open spec fn spec_parse_address(p: Seq<char>, a: Seq<char>) -> Result<AddressView, AddressError> {
    if spec_names(p, seq!['m', 'o', 'd', 'b', 'u', 's']) {
        spec_modbus(a)
    } else if spec_names(p, seq!['i', 'e', 'c', '1', '0', '4']) {
        spec_iec104(a)
    } else if spec_names(p, seq!['o', 'p', 'c', 'u', 'a']) {
        spec_opcua(a)
    } else if spec_names(p, seq!['c', 'a', 'n']) {
        Ok(AddressView::Generic(a))
    } else if spec_names(p, seq!['v', 'i', 'r', 't', 'u', 'a', 'l']) {
        Ok(AddressView::Virtual(a))
    } else if spec_names(p, seq!['g', 'p', 'i', 'o']) {
        spec_gpio(a)
    } else if spec_names(p, seq!['d', 'l', '6', '4', '5']) {
        match spec_dl645(a) {
            Ok(v) => Ok(AddressView::Dl645(v)),
            Err(e) => Err(e),
        }
    } else if spec_names(p, seq!['b', 'l', 'e']) {
        spec_ble(a)
    } else if spec_names(p, seq!['z', 'i', 'g', 'b', 'e', 'e']) {
        spec_zigbee(a)
    } else if spec_names(p, seq!['m', 'a', 't', 't', 'e', 'r']) {
        spec_matter(a)
    } else if spec_names(p, seq!['i', 'e', 'c', '6', '1', '8', '5', '0']) {
        spec_iec61850(a)
    } else {
        Err(AddressError::UnknownProtocol)
    }
}

/// Parse a shorthand address string of the named protocol.
pub fn parse_address(protocol: &str, address: &str) -> (r: Result<ProtocolAddress, AddressError>)
    ensures
        result_view(r) == spec_parse_address(protocol@, address@),
{
    let p = chars_of(protocol);
    let p = p.as_slice();
    let modbus: [char; 6] = ['m', 'o', 'd', 'b', 'u', 's'];
    let iec104: [char; 6] = ['i', 'e', 'c', '1', '0', '4'];
    let opcua: [char; 5] = ['o', 'p', 'c', 'u', 'a'];
    let can: [char; 3] = ['c', 'a', 'n'];
    let virt: [char; 7] = ['v', 'i', 'r', 't', 'u', 'a', 'l'];
    let gpio: [char; 4] = ['g', 'p', 'i', 'o'];
    let dl645: [char; 5] = ['d', 'l', '6', '4', '5'];
    let ble: [char; 3] = ['b', 'l', 'e'];
    let zigbee: [char; 6] = ['z', 'i', 'g', 'b', 'e', 'e'];
    let matter: [char; 6] = ['m', 'a', 't', 't', 'e', 'r'];
    let iec61850: [char; 8] = ['i', 'e', 'c', '6', '1', '8', '5', '0'];
    assert(modbus@ =~= seq!['m', 'o', 'd', 'b', 'u', 's']);
    assert(iec104@ =~= seq!['i', 'e', 'c', '1', '0', '4']);
    assert(opcua@ =~= seq!['o', 'p', 'c', 'u', 'a']);
    assert(can@ =~= seq!['c', 'a', 'n']);
    assert(virt@ =~= seq!['v', 'i', 'r', 't', 'u', 'a', 'l']);
    assert(gpio@ =~= seq!['g', 'p', 'i', 'o']);
    assert(dl645@ =~= seq!['d', 'l', '6', '4', '5']);
    assert(ble@ =~= seq!['b', 'l', 'e']);
    assert(zigbee@ =~= seq!['z', 'i', 'g', 'b', 'e', 'e']);
    assert(matter@ =~= seq!['m', 'a', 't', 't', 'e', 'r']);
    assert(iec61850@ =~= seq!['i', 'e', 'c', '6', '1', '8', '5', '0']);
    if eq_ignore_ascii_case(p, modbus.as_slice()) {
        parse_modbus_address(address)
    } else if eq_ignore_ascii_case(p, iec104.as_slice()) {
        parse_iec104_address(address)
    } else if eq_ignore_ascii_case(p, opcua.as_slice()) {
        parse_opcua_address(address)
    } else if eq_ignore_ascii_case(p, can.as_slice()) {
        Ok(ProtocolAddress::Generic(address.to_owned()))
    } else if eq_ignore_ascii_case(p, virt.as_slice()) {
        Ok(ProtocolAddress::Virtual(VirtualAddress::new(address)))
    } else if eq_ignore_ascii_case(p, gpio.as_slice()) {
        parse_gpio_address(address)
    } else if eq_ignore_ascii_case(p, dl645.as_slice()) {
        parse_dl645_address(address)
    } else if eq_ignore_ascii_case(p, ble.as_slice()) {
        parse_ble_address(address)
    } else if eq_ignore_ascii_case(p, zigbee.as_slice()) {
        parse_zigbee_address(address)
    } else if eq_ignore_ascii_case(p, matter.as_slice()) {
        parse_matter_address(address)
    } else if eq_ignore_ascii_case(p, iec61850.as_slice()) {
        parse_iec61850_address(address)
    } else {
        Err(AddressError::UnknownProtocol)
    }
}

} // verus!
