//! The commands that clients send.

use vstd::prelude::*;
use crate::address::ModNutUpsDeviceName;
use crate::string_escape::{escape_string_value, escaped};
use crate::variable::{ModNutVariableName, ModNutVariableValue};

verus! {

/// The name of a command.
#[derive(Debug, Clone)]
pub enum ModNutCommandName {
    /// `ATTACH`
    Attach,
    /// `DETACH`
    Detach,
    /// `FSD`
    ForcedShutdown,
    /// `GET`
    Get,
    /// `HELP`
    Help,
    /// `INSTCMD`
    InstantCommand,
    /// `LIST`
    List,
    /// `PROTVER`
    ProtocolVersion,
    /// `SET`
    SetVariable,
    /// `VER`
    ApplicationVersion,
}

impl ModNutCommandName {
    pub open spec fn text(&self) -> Seq<char> {
        match self {
            ModNutCommandName::Attach => "ATTACH"@,
            ModNutCommandName::Detach => "DETACH"@,
            ModNutCommandName::ForcedShutdown => "FSD"@,
            ModNutCommandName::Get => "GET"@,
            ModNutCommandName::Help => "HELP"@,
            ModNutCommandName::InstantCommand => "INSTCMD"@,
            ModNutCommandName::List => "LIST"@,
            ModNutCommandName::ProtocolVersion => "PROTVER"@,
            ModNutCommandName::SetVariable => "SET"@,
            ModNutCommandName::ApplicationVersion => "VER"@,
        }
    }

    pub fn to_string(&self) -> (s: String)
        ensures
            s@ == self.text(),
    {
        String::from_str(
            match self {
                ModNutCommandName::Attach => "ATTACH",
                ModNutCommandName::Detach => "DETACH",
                ModNutCommandName::ForcedShutdown => "FSD",
                ModNutCommandName::Get => "GET",
                ModNutCommandName::Help => "HELP",
                ModNutCommandName::InstantCommand => "INSTCMD",
                ModNutCommandName::List => "LIST",
                ModNutCommandName::ProtocolVersion => "PROTVER",
                ModNutCommandName::SetVariable => "SET",
                ModNutCommandName::ApplicationVersion => "VER",
            },
        )
    }
}

/// The name of an instant command, such as `test.battery.start`.
#[derive(Debug, Clone)]
pub struct ModNutInstantCommandName(pub String);

impl ModNutInstantCommandName {
    pub open spec fn text(&self) -> Seq<char> {
        self.0@
    }

    pub fn to_string(&self) -> (s: String)
        ensures
            s@ == self.text(),
    {
        self.0.clone()
    }
}

/// The description of an instant command; the protocol writes it escaped.
#[derive(Debug, Clone)]
pub struct ModNutInstantCommandDescription(pub String);

impl ModNutInstantCommandDescription {
    pub open spec fn text(&self) -> Seq<char> {
        escaped(self.0@)
    }

    pub fn to_string(&self) -> (s: String)
        ensures
            s@ == self.text(),
    {
        escape_string_value(self.0.as_str())
    }
}

/// The text `a b`.
pub open spec fn two_words(a: Seq<char>, b: Seq<char>) -> Seq<char> {
    a + " "@ + b
}

fn append_words(s: &mut String, a: &String, b: &String)
    ensures
        final(s)@ == old(s)@ + two_words(a@, b@),
{
    s.append(a.as_str());
    s.append(" ");
    s.append(b.as_str());
}

/// What a `GET` command asks for.
#[derive(Debug, Clone)]
pub enum ModNutGetCommand {
    /// `CMDDESC <upsname> <cmdname>`
    InstantCommandDescription(ModNutUpsDeviceName, ModNutInstantCommandName),
    /// `DESC <upsname> <varname>`
    VariableDescription(ModNutUpsDeviceName, ModNutVariableName),
    /// `NUMATTACH <upsname>`
    ActiveSystems(ModNutUpsDeviceName),
    /// `TYPE <upsname> <varname>`
    VariableType(ModNutUpsDeviceName, ModNutVariableName),
    /// `UPSDESC <upsname>`
    UpsDeviceDescription(ModNutUpsDeviceName),
    /// `VAR <upsname> <varname>`
    VariableValue(ModNutUpsDeviceName, ModNutVariableName),
}

impl ModNutGetCommand {
    pub open spec fn text(&self) -> Seq<char> {
        match self {
            ModNutGetCommand::InstantCommandDescription(ups, cmd) => "CMDDESC "@ + two_words(ups.text(), cmd.text()),
            ModNutGetCommand::VariableDescription(ups, var) => "DESC "@ + two_words(ups.text(), var.text()),
            ModNutGetCommand::ActiveSystems(ups) => "NUMATTACH "@ + ups.text(),
            ModNutGetCommand::VariableType(ups, var) => "TYPE "@ + two_words(ups.text(), var.text()),
            ModNutGetCommand::UpsDeviceDescription(ups) => "UPSDESC "@ + ups.text(),
            ModNutGetCommand::VariableValue(ups, var) => "VAR "@ + two_words(ups.text(), var.text()),
        }
    }

    pub fn to_string(&self) -> (s: String)
        ensures
            s@ == self.text(),
    {
        match self {
            ModNutGetCommand::InstantCommandDescription(ups, cmd) => {
                let mut s = String::from_str("CMDDESC ");
                append_words(&mut s, &ups.0, &cmd.0);
                s
            },
            ModNutGetCommand::VariableDescription(ups, var) => {
                let mut s = String::from_str("DESC ");
                append_words(&mut s, &ups.0, &var.0);
                s
            },
            ModNutGetCommand::ActiveSystems(ups) => {
                let mut s = String::from_str("NUMATTACH ");
                s.append(ups.0.as_str());
                s
            },
            ModNutGetCommand::VariableType(ups, var) => {
                let mut s = String::from_str("TYPE ");
                append_words(&mut s, &ups.0, &var.0);
                s
            },
            ModNutGetCommand::UpsDeviceDescription(ups) => {
                let mut s = String::from_str("UPSDESC ");
                s.append(ups.0.as_str());
                s
            },
            ModNutGetCommand::VariableValue(ups, var) => {
                let mut s = String::from_str("VAR ");
                append_words(&mut s, &ups.0, &var.0);
                s
            },
        }
    }
}

/// What a `LIST` command asks for.
#[derive(Debug, Clone)]
pub enum ModNutListCommand {
    /// `CLIENT <upsname>`
    Clients(ModNutUpsDeviceName),
    /// `CMD <upsname>`
    InstantCommands(ModNutUpsDeviceName),
    /// `ENUM <upsname> <varname>`
    VariableEnumVariants(ModNutUpsDeviceName, ModNutVariableName),
    /// `RANGE <upsname> <varname>`
    VariableRanges(ModNutUpsDeviceName, ModNutVariableName),
    /// `RW <upsname>`
    ReadWriteVariables(ModNutUpsDeviceName),
    /// `UPS`
    UpsDevices,
    /// `VAR <upsname>`
    Variables(ModNutUpsDeviceName),
}

impl ModNutListCommand {
    pub open spec fn text(&self) -> Seq<char> {
        match self {
            ModNutListCommand::Clients(ups) => "CLIENT "@ + ups.text(),
            ModNutListCommand::InstantCommands(ups) => "CMD "@ + ups.text(),
            ModNutListCommand::VariableEnumVariants(ups, var) => "ENUM "@ + two_words(ups.text(), var.text()),
            ModNutListCommand::VariableRanges(ups, var) => "RANGE "@ + two_words(ups.text(), var.text()),
            ModNutListCommand::ReadWriteVariables(ups) => "RW "@ + ups.text(),
            ModNutListCommand::UpsDevices => "UPS"@,
            ModNutListCommand::Variables(ups) => "VAR "@ + ups.text(),
        }
    }

    pub fn to_string(&self) -> (s: String)
        ensures
            s@ == self.text(),
    {
        match self {
            ModNutListCommand::Clients(ups) => {
                let mut s = String::from_str("CLIENT ");
                s.append(ups.0.as_str());
                s
            },
            ModNutListCommand::InstantCommands(ups) => {
                let mut s = String::from_str("CMD ");
                s.append(ups.0.as_str());
                s
            },
            ModNutListCommand::VariableEnumVariants(ups, var) => {
                let mut s = String::from_str("ENUM ");
                append_words(&mut s, &ups.0, &var.0);
                s
            },
            ModNutListCommand::VariableRanges(ups, var) => {
                let mut s = String::from_str("RANGE ");
                append_words(&mut s, &ups.0, &var.0);
                s
            },
            ModNutListCommand::ReadWriteVariables(ups) => {
                let mut s = String::from_str("RW ");
                s.append(ups.0.as_str());
                s
            },
            ModNutListCommand::UpsDevices => String::from_str("UPS"),
            ModNutListCommand::Variables(ups) => {
                let mut s = String::from_str("VAR ");
                s.append(ups.0.as_str());
                s
            },
        }
    }
}

/// What a `SET` command sets.
#[derive(Debug, Clone)]
pub enum ModNutSetCommand {
    /// `VAR <upsname> <varname> "<value>"`
    VariableValue(ModNutUpsDeviceName, ModNutVariableName, ModNutVariableValue),
}

impl ModNutSetCommand {
    pub open spec fn text(&self) -> Seq<char> {
        match self {
            ModNutSetCommand::VariableValue(ups, var, value) => "VAR "@ + two_words(ups.text(), var.text()) + " \""@ + value.text() + "\""@,
        }
    }

    pub fn to_string(&self) -> (s: String)
        ensures
            s@ == self.text(),
    {
        match self {
            ModNutSetCommand::VariableValue(ups, var, value) => {
                let mut s = String::from_str("VAR ");
                append_words(&mut s, &ups.0, &var.0);
                s.append(" \"");
                s.append(value.to_string().as_str());
                s.append("\"");
                s
            },
        }
    }
}

/// A command of a client.
#[derive(Debug, Clone)]
pub enum ModNutCommand {
    /// `ATTACH <upsname>`
    Attach(ModNutUpsDeviceName),
    /// `DETACH`
    Detach,
    /// `FSD <upsname>`
    ForcedShutdown(ModNutUpsDeviceName),
    /// `GET <subcommand>`
    Get(ModNutGetCommand),
    /// `HELP`
    Help,
    /// `INSTCMD <upsname> <cmdname>`
    InstantCommand(ModNutUpsDeviceName, ModNutInstantCommandName),
    /// `LIST <subcommand>`
    List(ModNutListCommand),
    /// `PROTVER`
    ProtocolVersion,
    /// `SET <subcommand>`
    SetVariable(ModNutSetCommand),
    /// `VER`
    ApplicationVersion,
}

impl ModNutCommand {
    pub open spec fn text(&self) -> Seq<char> {
        match self {
            ModNutCommand::Attach(ups) => "ATTACH "@ + ups.text(),
            ModNutCommand::Detach => "DETACH"@,
            ModNutCommand::ForcedShutdown(ups) => "FSD "@ + ups.text(),
            ModNutCommand::Get(sub) => "GET "@ + sub.text(),
            ModNutCommand::Help => "HELP"@,
            ModNutCommand::InstantCommand(ups, cmd) => "INSTCMD "@ + two_words(ups.text(), cmd.text()),
            ModNutCommand::List(sub) => "LIST "@ + sub.text(),
            ModNutCommand::ProtocolVersion => "PROTVER"@,
            ModNutCommand::SetVariable(sub) => "SET "@ + sub.text(),
            ModNutCommand::ApplicationVersion => "VER"@,
        }
    }

    pub fn to_string(&self) -> (s: String)
        ensures
            s@ == self.text(),
    {
        match self {
            ModNutCommand::Attach(ups) => {
                let mut s = String::from_str("ATTACH ");
                s.append(ups.0.as_str());
                s
            },
            ModNutCommand::Detach => String::from_str("DETACH"),
            ModNutCommand::ForcedShutdown(ups) => {
                let mut s = String::from_str("FSD ");
                s.append(ups.0.as_str());
                s
            },
            ModNutCommand::Get(sub) => {
                let mut s = String::from_str("GET ");
                s.append(sub.to_string().as_str());
                s
            },
            ModNutCommand::Help => String::from_str("HELP"),
            ModNutCommand::InstantCommand(ups, cmd) => {
                let mut s = String::from_str("INSTCMD ");
                append_words(&mut s, &ups.0, &cmd.0);
                s
            },
            ModNutCommand::List(sub) => {
                let mut s = String::from_str("LIST ");
                s.append(sub.to_string().as_str());
                s
            },
            ModNutCommand::ProtocolVersion => String::from_str("PROTVER"),
            ModNutCommand::SetVariable(sub) => {
                let mut s = String::from_str("SET ");
                s.append(sub.to_string().as_str());
                s
            },
            ModNutCommand::ApplicationVersion => String::from_str("VER"),
        }
    }
}

} // verus!
