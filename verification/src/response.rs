//! The responses that the server sends.

use vstd::prelude::*;
use crate::address::{ModNutUpsDeviceActiveSystems, ModNutUpsDeviceDescription, ModNutUpsDeviceName};
use crate::command::{ModNutCommandName, ModNutInstantCommandDescription, ModNutInstantCommandName, two_words};
use crate::variable::{
    ModNutVariableDescription, ModNutVariableName, ModNutVariableType,
    ModNutVariableTypeEnumVariant, ModNutVariableTypeRangeBound, ModNutVariableValue,
};

verus! {

broadcast use vstd::seq::Seq::group_seq_flatten;

/// The text between double quotes.
pub open spec fn quoted(t: Seq<char>) -> Seq<char> {
    "\""@ + t + "\""@
}

/// Each text preceded by a space, all in one.
pub open spec fn space_separated(texts: Seq<Seq<char>>) -> Seq<char> {
    texts.map_values(|t: Seq<char>| " "@ + t).flatten()
}

/// The views of a list of strings.
pub open spec fn strings_view(strings: Seq<String>) -> Seq<Seq<char>> {
    strings.map_values(|s: String| s@)
}

fn append_quoted(s: &mut String, t: &String)
    ensures
        final(s)@ == old(s)@ + quoted(t@),
{
    s.append("\"");
    s.append(t.as_str());
    s.append("\"");
}

/// Appends each text preceded by a space.
fn append_space_separated(s: &mut String, texts: &Vec<String>)
    ensures
        final(s)@ == old(s)@ + space_separated(strings_view(texts@)),
{
    let ghost start = s@;
    let ghost parts = strings_view(texts@).map_values(|t: Seq<char>| " "@ + t);
    let mut i: usize = 0;
    while i < texts.len()
        invariant
            i <= texts.len(),
            parts == strings_view(texts@).map_values(|t: Seq<char>| " "@ + t),
            s@ =~= start + parts.take(i as int).flatten(),
        decreases texts.len() - i,
    {
        s.append(" ");
        s.append(texts[i].as_str());
        assert(parts.take(i + 1) =~= parts.take(i as int).push(parts[i as int]));
        i = i + 1;
    }
    assert(parts.take(i as int) =~= parts);
}

/// The message of an `OK` response.
#[derive(Debug, Clone)]
pub enum ModNutResponseOkMessage {
    /// `Goodbye`
    Goodbye,
    /// `FSD-SET`
    ForcedShutdownInitiated,
    /// Any other message.
    Other(String),
}

impl ModNutResponseOkMessage {
    pub open spec fn text(&self) -> Seq<char> {
        match self {
            ModNutResponseOkMessage::Goodbye => "Goodbye"@,
            ModNutResponseOkMessage::ForcedShutdownInitiated => "FSD-SET"@,
            ModNutResponseOkMessage::Other(message) => message@,
        }
    }

    pub fn to_string(&self) -> (s: String)
        ensures
            s@ == self.text(),
    {
        match self {
            ModNutResponseOkMessage::Goodbye => String::from_str("Goodbye"),
            ModNutResponseOkMessage::ForcedShutdownInitiated => String::from_str("FSD-SET"),
            ModNutResponseOkMessage::Other(message) => message.clone(),
        }
    }
}

/// The answer to a `GET` command.
#[derive(Debug, Clone)]
pub enum ModNutGetResponse {
    /// `CMDDESC <upsname> <cmdname> "<description>"`
    InstantCommandDescription(ModNutUpsDeviceName, ModNutInstantCommandName, ModNutInstantCommandDescription),
    /// `DESC <upsname> <varname> "<description>"`
    VariableDescription(ModNutUpsDeviceName, ModNutVariableName, ModNutVariableDescription),
    /// `NUMATTACH <upsname> <value>`
    ActiveSystems(ModNutUpsDeviceName, ModNutUpsDeviceActiveSystems),
    /// `TYPE <upsname> <varname> <type>...`
    VariableType(ModNutUpsDeviceName, ModNutVariableName, Vec<ModNutVariableType>),
    /// `UPSDESC <upsname> "<description>"`
    UpsDeviceDescription(ModNutUpsDeviceName, ModNutUpsDeviceDescription),
    /// `VAR <upsname> <varname> "<value>"`
    VariableValue(ModNutUpsDeviceName, ModNutVariableName, ModNutVariableValue),
}

/// The texts of a list of variable types.
pub open spec fn type_texts(types: Seq<ModNutVariableType>) -> Seq<Seq<char>> {
    types.map_values(|t: ModNutVariableType| t.text())
}

impl ModNutGetResponse {
    /// The response as the protocol writes it. A `TYPE` answer writes one space
    /// before each type, and none after the variable name when there is no type.
    pub open spec fn text(&self) -> Seq<char> {
        match self {
            ModNutGetResponse::InstantCommandDescription(ups, cmd, desc) => "CMDDESC "@ + two_words(ups.text(), cmd.text()) + " "@ + quoted(desc.text()),
            ModNutGetResponse::VariableDescription(ups, var, desc) => "DESC "@ + two_words(ups.text(), var.text()) + " "@ + quoted(desc.text()),
            ModNutGetResponse::ActiveSystems(ups, active) => "NUMATTACH "@ + two_words(ups.text(), active.text()),
            ModNutGetResponse::VariableType(ups, var, types) => "TYPE "@ + two_words(ups.text(), var.text()) + space_separated(type_texts(types@)),
            ModNutGetResponse::UpsDeviceDescription(ups, desc) => "UPSDESC "@ + ups.text() + " "@ + quoted(desc.text()),
            ModNutGetResponse::VariableValue(ups, var, value) => "VAR "@ + two_words(ups.text(), var.text()) + " "@ + quoted(value.text()),
        }
    }

    pub fn to_string(&self) -> (s: String)
        ensures
            s@ == self.text(),
    {
        match self {
            ModNutGetResponse::InstantCommandDescription(ups, cmd, desc) => {
                let mut s = String::from_str("CMDDESC ");
                append_two_words(&mut s, &ups.0, &cmd.0);
                s.append(" ");
                append_quoted(&mut s, &desc.to_string());
                s
            },
            ModNutGetResponse::VariableDescription(ups, var, desc) => {
                let mut s = String::from_str("DESC ");
                append_two_words(&mut s, &ups.0, &var.0);
                s.append(" ");
                append_quoted(&mut s, &desc.to_string());
                s
            },
            ModNutGetResponse::ActiveSystems(ups, active) => {
                let mut s = String::from_str("NUMATTACH ");
                append_two_words(&mut s, &ups.0, &active.to_string());
                s
            },
            ModNutGetResponse::VariableType(ups, var, types) => {
                let mut s = String::from_str("TYPE ");
                append_two_words(&mut s, &ups.0, &var.0);
                let mut texts: Vec<String> = Vec::new();
                let mut i: usize = 0;
                while i < types.len()
                    invariant
                        i <= types.len(),
                        strings_view(texts@) =~= type_texts(types@.take(i as int)),
                    decreases types.len() - i,
                {
                    texts.push(types[i].to_string());
                    assert(type_texts(types@.take(i + 1)) =~= type_texts(types@.take(i as int)).push(types@[i as int].text()));
                    i = i + 1;
                }
                assert(types@.take(i as int) =~= types@);
                append_space_separated(&mut s, &texts);
                s
            },
            ModNutGetResponse::UpsDeviceDescription(ups, desc) => {
                let mut s = String::from_str("UPSDESC ");
                s.append(ups.0.as_str());
                s.append(" ");
                append_quoted(&mut s, &desc.to_string());
                s
            },
            ModNutGetResponse::VariableValue(ups, var, value) => {
                let mut s = String::from_str("VAR ");
                append_two_words(&mut s, &ups.0, &var.0);
                s.append(" ");
                append_quoted(&mut s, &value.to_string());
                s
            },
        }
    }
}

fn append_two_words(s: &mut String, a: &String, b: &String)
    ensures
        final(s)@ == old(s)@ + two_words(a@, b@),
{
    s.append(a.as_str());
    s.append(" ");
    s.append(b.as_str());
}

/// The answer to `HELP`: `Commands:` followed by the command names.
#[derive(Debug, Clone)]
pub struct ModNutHelpResponse(pub Vec<ModNutCommandName>);

/// The texts of a list of command names.
pub open spec fn command_name_texts(names: Seq<ModNutCommandName>) -> Seq<Seq<char>> {
    names.map_values(|n: ModNutCommandName| n.text())
}

impl ModNutHelpResponse {
    pub open spec fn text(&self) -> Seq<char> {
        "Commands:"@ + space_separated(command_name_texts(self.0@))
    }

    pub fn to_string(&self) -> (s: String)
        ensures
            s@ == self.text(),
    {
        let mut s = String::from_str("Commands:");
        let mut texts: Vec<String> = Vec::new();
        let mut i: usize = 0;
        while i < self.0.len()
            invariant
                i <= self.0.len(),
                strings_view(texts@) =~= command_name_texts(self.0@.take(i as int)),
            decreases self.0.len() - i,
        {
            texts.push(self.0[i].to_string());
            assert(command_name_texts(self.0@.take(i + 1)) =~= command_name_texts(self.0@.take(i as int)).push(self.0@[i as int].text()));
            i = i + 1;
        }
        assert(self.0@.take(i as int) =~= self.0@);
        append_space_separated(&mut s, &texts);
        s
    }
}

/// The address of a client attached to a UPS device, held as its text.
#[derive(Debug, Clone)]
pub struct ModNutListResponseClient(pub String);

impl ModNutListResponseClient {
    pub open spec fn text(&self) -> Seq<char> {
        self.0@
    }

    pub fn to_string(&self) -> (s: String)
        ensures
            s@ == self.text(),
    {
        self.0.clone()
    }
}

/// The version text that `VER` and `PROTVER` answer with.
#[derive(Debug, Clone)]
pub struct ModNutResponseVersion(pub String);

impl ModNutResponseVersion {
    pub open spec fn text(&self) -> Seq<char> {
        self.0@
    }

    pub fn to_string(&self) -> (s: String)
        ensures
            s@ == self.text(),
    {
        self.0.clone()
    }
}


/// The item lines of a list answer: for each value, the prefix, a space, the
/// value and a newline.
pub open spec fn list_lines(prefix: Seq<char>, values: Seq<Seq<char>>) -> Seq<char> {
    values.map_values(|v: Seq<char>| prefix + " "@ + v + "\n"@).flatten()
}

/// Appends one line per value, each made of the prefix, a space, the value
/// and a newline.
fn append_list_lines(s: &mut String, prefix: &String, values: &Vec<String>)
    ensures
        final(s)@ == old(s)@ + list_lines(prefix@, strings_view(values@)),
{
    let ghost start = s@;
    let ghost parts = strings_view(values@).map_values(|v: Seq<char>| prefix@ + " "@ + v + "\n"@);
    let mut i: usize = 0;
    while i < values.len()
        invariant
            i <= values.len(),
            parts == strings_view(values@).map_values(|v: Seq<char>| prefix@ + " "@ + v + "\n"@),
            s@ =~= start + parts.take(i as int).flatten(),
        decreases values.len() - i,
    {
        s.append(prefix.as_str());
        s.append(" ");
        s.append(values[i].as_str());
        s.append("\n");
        assert(parts.take(i + 1) =~= parts.take(i as int).push(parts[i as int]));
        i = i + 1;
    }
    assert(parts.take(i as int) =~= parts);
}

/// The texts of the clients of a list answer.
pub open spec fn client_texts(clients: Seq<ModNutListResponseClient>) -> Seq<Seq<char>> {
    clients.map_values(|c: ModNutListResponseClient| c.text())
}

/// The texts of instant command names.
pub open spec fn instant_command_texts(names: Seq<ModNutInstantCommandName>) -> Seq<Seq<char>> {
    names.map_values(|n: ModNutInstantCommandName| n.text())
}

/// Each enumeration value between double quotes.
pub open spec fn enum_variant_texts(variants: Seq<ModNutVariableTypeEnumVariant>) -> Seq<Seq<char>> {
    variants.map_values(|v: ModNutVariableTypeEnumVariant| quoted(v.text()))
}

/// Each range as its two bounds between double quotes, separated by a space.
pub open spec fn range_texts(
    ranges: Seq<(ModNutVariableTypeRangeBound, ModNutVariableTypeRangeBound)>,
) -> Seq<Seq<char>> {
    ranges.map_values(
        |r: (ModNutVariableTypeRangeBound, ModNutVariableTypeRangeBound)|
            quoted(r.0.text()) + " "@ + quoted(r.1.text()),
    )
}

/// Each variable as its name, a space and its value between double quotes.
pub open spec fn variable_texts(variables: Seq<(ModNutVariableName, ModNutVariableValue)>) -> Seq<
    Seq<char>,
> {
    variables.map_values(
        |v: (ModNutVariableName, ModNutVariableValue)| v.0.text() + " "@ + quoted(v.1.text()),
    )
}

/// Each UPS device as its name, a space and its description between double quotes.
pub open spec fn ups_device_texts(
    devices: Seq<(ModNutUpsDeviceName, ModNutUpsDeviceDescription)>,
) -> Seq<Seq<char>> {
    devices.map_values(
        |d: (ModNutUpsDeviceName, ModNutUpsDeviceDescription)| d.0.text() + " "@ + quoted(d.1.text()),
    )
}

fn client_strings(clients: &Vec<ModNutListResponseClient>) -> (r: Vec<String>)
    ensures
        strings_view(r@) == client_texts(clients@),
{
    let mut r: Vec<String> = Vec::new();
    let mut i: usize = 0;
    while i < clients.len()
        invariant
            i <= clients.len(),
            strings_view(r@) =~= client_texts(clients@.take(i as int)),
        decreases clients.len() - i,
    {
        r.push(clients[i].to_string());
        assert(client_texts(clients@.take(i + 1)) =~= client_texts(clients@.take(i as int)).push(
            clients@[i as int].text(),
        ));
        i = i + 1;
    }
    assert(clients@.take(i as int) =~= clients@);
    r
}

fn instant_command_strings(names: &Vec<ModNutInstantCommandName>) -> (r: Vec<String>)
    ensures
        strings_view(r@) == instant_command_texts(names@),
{
    let mut r: Vec<String> = Vec::new();
    let mut i: usize = 0;
    while i < names.len()
        invariant
            i <= names.len(),
            strings_view(r@) =~= instant_command_texts(names@.take(i as int)),
        decreases names.len() - i,
    {
        r.push(names[i].to_string());
        assert(instant_command_texts(names@.take(i + 1)) =~= instant_command_texts(
            names@.take(i as int),
        ).push(names@[i as int].text()));
        i = i + 1;
    }
    assert(names@.take(i as int) =~= names@);
    r
}

fn quoted_string(t: &String) -> (r: String)
    ensures
        r@ == quoted(t@),
{
    let mut r = String::new();
    append_quoted(&mut r, t);
    r
}

fn enum_variant_strings(variants: &Vec<ModNutVariableTypeEnumVariant>) -> (r: Vec<String>)
    ensures
        strings_view(r@) == enum_variant_texts(variants@),
{
    let mut r: Vec<String> = Vec::new();
    let mut i: usize = 0;
    while i < variants.len()
        invariant
            i <= variants.len(),
            strings_view(r@) =~= enum_variant_texts(variants@.take(i as int)),
        decreases variants.len() - i,
    {
        r.push(quoted_string(&variants[i].to_string()));
        assert(enum_variant_texts(variants@.take(i + 1)) =~= enum_variant_texts(
            variants@.take(i as int),
        ).push(quoted(variants@[i as int].text())));
        i = i + 1;
    }
    assert(variants@.take(i as int) =~= variants@);
    r
}

fn range_strings(ranges: &Vec<(ModNutVariableTypeRangeBound, ModNutVariableTypeRangeBound)>) -> (r:
    Vec<String>)
    ensures
        strings_view(r@) == range_texts(ranges@),
{
    let mut r: Vec<String> = Vec::new();
    let mut i: usize = 0;
    while i < ranges.len()
        invariant
            i <= ranges.len(),
            strings_view(r@) =~= range_texts(ranges@.take(i as int)),
        decreases ranges.len() - i,
    {
        let (min, max) = &ranges[i];
        let mut line = quoted_string(&min.to_string());
        line.append(" ");
        append_quoted(&mut line, &max.to_string());
        r.push(line);
        assert(range_texts(ranges@.take(i + 1)) =~= range_texts(ranges@.take(i as int)).push(
            quoted(ranges@[i as int].0.text()) + " "@ + quoted(ranges@[i as int].1.text()),
        ));
        i = i + 1;
    }
    assert(ranges@.take(i as int) =~= ranges@);
    r
}

fn variable_strings(variables: &Vec<(ModNutVariableName, ModNutVariableValue)>) -> (r: Vec<String>)
    ensures
        strings_view(r@) == variable_texts(variables@),
{
    let mut r: Vec<String> = Vec::new();
    let mut i: usize = 0;
    while i < variables.len()
        invariant
            i <= variables.len(),
            strings_view(r@) =~= variable_texts(variables@.take(i as int)),
        decreases variables.len() - i,
    {
        let (name, value) = &variables[i];
        let mut line = name.to_string();
        line.append(" ");
        append_quoted(&mut line, &value.to_string());
        r.push(line);
        assert(variable_texts(variables@.take(i + 1)) =~= variable_texts(
            variables@.take(i as int),
        ).push(variables@[i as int].0.text() + " "@ + quoted(variables@[i as int].1.text())));
        i = i + 1;
    }
    assert(variables@.take(i as int) =~= variables@);
    r
}

fn ups_device_strings(devices: &Vec<(ModNutUpsDeviceName, ModNutUpsDeviceDescription)>) -> (r: Vec<
    String,
>)
    ensures
        strings_view(r@) == ups_device_texts(devices@),
{
    let mut r: Vec<String> = Vec::new();
    let mut i: usize = 0;
    while i < devices.len()
        invariant
            i <= devices.len(),
            strings_view(r@) =~= ups_device_texts(devices@.take(i as int)),
        decreases devices.len() - i,
    {
        let (name, description) = &devices[i];
        let mut line = name.to_string();
        line.append(" ");
        append_quoted(&mut line, &description.to_string());
        r.push(line);
        assert(ups_device_texts(devices@.take(i + 1)) =~= ups_device_texts(
            devices@.take(i as int),
        ).push(devices@[i as int].0.text() + " "@ + quoted(devices@[i as int].1.text())));
        i = i + 1;
    }
    assert(devices@.take(i as int) =~= devices@);
    r
}

/// The answer to a `LIST` command: a `BEGIN LIST` line, one line per item, and
/// an `END LIST` line, each line ending with a newline.
#[derive(Debug, Clone)]
pub enum ModNutListResponse {
    /// `CLIENT <upsname> <client address>`
    Clients(ModNutUpsDeviceName, Vec<ModNutListResponseClient>),
    /// `CMD <upsname> <cmdname>`
    InstantCommands(ModNutUpsDeviceName, Vec<ModNutInstantCommandName>),
    /// `LIST ENUM <upsname> <varname> "<value>"`
    VariableEnumVariants(ModNutUpsDeviceName, ModNutVariableName, Vec<ModNutVariableTypeEnumVariant>),
    /// `LIST RANGE <upsname> <varname> "<min>" "<max>"`
    VariableRanges(
        ModNutUpsDeviceName,
        ModNutVariableName,
        Vec<(ModNutVariableTypeRangeBound, ModNutVariableTypeRangeBound)>,
    ),
    /// `LIST RW <upsname> <varname> "<value>"`
    ReadWriteVariables(ModNutUpsDeviceName, Vec<(ModNutVariableName, ModNutVariableValue)>),
    /// `LIST UPS <upsname> "<description>"`
    UpsDevices(Vec<(ModNutUpsDeviceName, ModNutUpsDeviceDescription)>),
    /// `LIST VAR <upsname> <varname> "<value>"`
    Variables(ModNutUpsDeviceName, Vec<(ModNutVariableName, ModNutVariableValue)>),
}

impl ModNutListResponse {
    /// The words that follow `BEGIN LIST ` and `END LIST `.
    pub open spec fn subcommand(&self) -> Seq<char> {
        match self {
            ModNutListResponse::Clients(ups, _) => "CLIENT "@ + ups.text(),
            ModNutListResponse::InstantCommands(ups, _) => "CMD "@ + ups.text(),
            ModNutListResponse::VariableEnumVariants(ups, var, _) => "ENUM "@ + two_words(ups.text(), var.text()),
            ModNutListResponse::VariableRanges(ups, var, _) => "RANGE "@ + two_words(ups.text(), var.text()),
            ModNutListResponse::ReadWriteVariables(ups, _) => "RW "@ + ups.text(),
            ModNutListResponse::UpsDevices(_) => "UPS"@,
            ModNutListResponse::Variables(ups, _) => "VAR "@ + ups.text(),
        }
    }

    /// What opens each item line: the subcommand for clients and instant
    /// commands, `LIST ` and the subcommand for the other lists.
    pub open spec fn item_prefix(&self) -> Seq<char> {
        match self {
            ModNutListResponse::Clients(..) | ModNutListResponse::InstantCommands(..) => self.subcommand(),
            _ => "LIST "@ + self.subcommand(),
        }
    }

    /// The items of the answer, one per line.
    pub open spec fn values(&self) -> Seq<Seq<char>> {
        match self {
            ModNutListResponse::Clients(_, clients) => client_texts(clients@),
            ModNutListResponse::InstantCommands(_, names) => instant_command_texts(names@),
            ModNutListResponse::VariableEnumVariants(_, _, variants) => enum_variant_texts(variants@),
            ModNutListResponse::VariableRanges(_, _, ranges) => range_texts(ranges@),
            ModNutListResponse::ReadWriteVariables(_, variables) => variable_texts(variables@),
            ModNutListResponse::UpsDevices(devices) => ups_device_texts(devices@),
            ModNutListResponse::Variables(_, variables) => variable_texts(variables@),
        }
    }

    pub open spec fn text(&self) -> Seq<char> {
        "BEGIN LIST "@ + self.subcommand() + "\n"@ + list_lines(self.item_prefix(), self.values())
            + "END LIST "@ + self.subcommand() + "\n"@
    }

    fn subcommand_string(&self) -> (s: String)
        ensures
            s@ == self.subcommand(),
    {
        match self {
            ModNutListResponse::Clients(ups, _) => {
                let mut s = String::from_str("CLIENT ");
                s.append(ups.0.as_str());
                s
            },
            ModNutListResponse::InstantCommands(ups, _) => {
                let mut s = String::from_str("CMD ");
                s.append(ups.0.as_str());
                s
            },
            ModNutListResponse::VariableEnumVariants(ups, var, _) => {
                let mut s = String::from_str("ENUM ");
                append_two_words(&mut s, &ups.0, &var.0);
                s
            },
            ModNutListResponse::VariableRanges(ups, var, _) => {
                let mut s = String::from_str("RANGE ");
                append_two_words(&mut s, &ups.0, &var.0);
                s
            },
            ModNutListResponse::ReadWriteVariables(ups, _) => {
                let mut s = String::from_str("RW ");
                s.append(ups.0.as_str());
                s
            },
            ModNutListResponse::UpsDevices(_) => String::from_str("UPS"),
            ModNutListResponse::Variables(ups, _) => {
                let mut s = String::from_str("VAR ");
                s.append(ups.0.as_str());
                s
            },
        }
    }

    fn item_prefix_string(&self, subcommand: &String) -> (s: String)
        requires
            subcommand@ == self.subcommand(),
        ensures
            s@ == self.item_prefix(),
    {
        match self {
            ModNutListResponse::Clients(..) | ModNutListResponse::InstantCommands(..) => subcommand.clone(),
            _ => {
                let mut s = String::from_str("LIST ");
                s.append(subcommand.as_str());
                s
            },
        }
    }

    fn value_strings(&self) -> (r: Vec<String>)
        ensures
            strings_view(r@) == self.values(),
    {
        match self {
            ModNutListResponse::Clients(_, clients) => client_strings(clients),
            ModNutListResponse::InstantCommands(_, names) => instant_command_strings(names),
            ModNutListResponse::VariableEnumVariants(_, _, variants) => enum_variant_strings(variants),
            ModNutListResponse::VariableRanges(_, _, ranges) => range_strings(ranges),
            ModNutListResponse::ReadWriteVariables(_, variables) => variable_strings(variables),
            ModNutListResponse::UpsDevices(devices) => ups_device_strings(devices),
            ModNutListResponse::Variables(_, variables) => variable_strings(variables),
        }
    }

    pub fn to_string(&self) -> (s: String)
        ensures
            s@ == self.text(),
    {
        let subcommand = self.subcommand_string();
        let values = self.value_strings();
        let mut s = String::from_str("BEGIN LIST ");
        s.append(subcommand.as_str());
        s.append("\n");
        let prefix = self.item_prefix_string(&subcommand);
        append_list_lines(&mut s, &prefix, &values);
        s.append("END LIST ");
        s.append(subcommand.as_str());
        s.append("\n");
        s
    }
}

/// A response of the server.
#[derive(Debug, Clone)]
pub enum ModNutResponse {
    /// `OK` or `OK <message>`
    Okay(Option<ModNutResponseOkMessage>),
    Get(ModNutGetResponse),
    Help(ModNutHelpResponse),
    List(ModNutListResponse),
    Version(ModNutResponseVersion),
}

impl ModNutResponse {
    pub open spec fn text(&self) -> Seq<char> {
        match self {
            ModNutResponse::Okay(Some(message)) => "OK "@ + message.text(),
            ModNutResponse::Okay(None) => "OK"@,
            ModNutResponse::Get(response) => response.text(),
            ModNutResponse::Help(response) => response.text(),
            ModNutResponse::List(response) => response.text(),
            ModNutResponse::Version(version) => version.text(),
        }
    }

    pub fn to_string(&self) -> (s: String)
        ensures
            s@ == self.text(),
    {
        match self {
            ModNutResponse::Okay(Some(message)) => {
                let mut s = String::from_str("OK ");
                s.append(message.to_string().as_str());
                s
            },
            ModNutResponse::Okay(None) => String::from_str("OK"),
            ModNutResponse::Get(response) => response.to_string(),
            ModNutResponse::Help(response) => response.to_string(),
            ModNutResponse::List(response) => response.to_string(),
            ModNutResponse::Version(version) => version.to_string(),
        }
    }
}

} // verus!
