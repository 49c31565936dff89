use modnut::address::{
    ModNutUpsDeviceActiveSystems, ModNutUpsDeviceAddress, ModNutUpsDeviceDescription,
    ModNutUpsDeviceName,
};
use modnut::command::{
    ModNutCommand, ModNutCommandName, ModNutGetCommand, ModNutInstantCommandDescription,
    ModNutInstantCommandName, ModNutListCommand, ModNutSetCommand,
};
use modnut::string_escape::{escape_string_value, unescape_string_value};
use modnut::variable::{
    ModNutVariableDescription, ModNutVariableName, ModNutVariableType,
    ModNutVariableTypeEnumVariant, ModNutVariableTypeRangeBound, ModNutVariableValue,
};

fn upsname() -> ModNutUpsDeviceName {
    ModNutUpsDeviceName("upsname".to_string())
}

fn varname() -> ModNutVariableName {
    ModNutVariableName("varname".to_string())
}

#[test]
fn should_display_ups_device_name() {
    let target = ModNutUpsDeviceName("upsname".to_string());
    let result = target.to_string();

    assert_eq!(result, "upsname");
}

#[test]
fn should_display_ups_device_description() {
    let target = ModNutUpsDeviceDescription("description".to_string());
    let result = target.to_string();

    assert_eq!(result, "description");
}

#[test]
fn should_display_ups_device_description_escaped() {
    let target = ModNutUpsDeviceDescription("\"description\"".to_string());
    let result = target.to_string();

    assert_eq!(result, "\\\"description\\\"");
}

#[test]
fn should_display_ups_device_active_systems() {
    let target = ModNutUpsDeviceActiveSystems(123);
    let result = target.to_string();

    assert_eq!(result, "123");
}

#[test]
fn should_display_ups_device_address_with_host_and_port() {
    let target = ModNutUpsDeviceAddress::new(upsname(), Some(("127.0.0.1".to_string(), Some(3494))));
    let result = target.to_string();

    assert_eq!(result, "upsname@127.0.0.1:3494");
}

#[test]
fn should_display_ups_device_address_with_host() {
    let target = ModNutUpsDeviceAddress::new(upsname(), Some(("127.0.0.1".to_string(), None)));
    let result = target.to_string();

    assert_eq!(result, "upsname@127.0.0.1");
}

#[test]
fn should_display_ups_device_address() {
    let target = ModNutUpsDeviceAddress::new(upsname(), None);
    let result = target.to_string();

    assert_eq!(result, "upsname");
}

#[test]
fn should_display_command_name_attach() {
    let target = ModNutCommandName::Attach;
    let result = target.to_string();

    assert_eq!(result, "ATTACH");
}

#[test]
fn should_display_command_name_detach() {
    let target = ModNutCommandName::Detach;
    let result = target.to_string();

    assert_eq!(result, "DETACH");
}

#[test]
fn should_display_command_name_forced_shutdown() {
    let target = ModNutCommandName::ForcedShutdown;
    let result = target.to_string();

    assert_eq!(result, "FSD");
}

#[test]
fn should_display_command_name_get() {
    let target = ModNutCommandName::Get;
    let result = target.to_string();

    assert_eq!(result, "GET");
}

#[test]
fn should_display_command_name_help() {
    let target = ModNutCommandName::Help;
    let result = target.to_string();

    assert_eq!(result, "HELP");
}

#[test]
fn should_display_command_name_instant_command() {
    let target = ModNutCommandName::InstantCommand;
    let result = target.to_string();

    assert_eq!(result, "INSTCMD");
}

#[test]
fn should_display_command_name_list() {
    let target = ModNutCommandName::List;
    let result = target.to_string();

    assert_eq!(result, "LIST");
}

#[test]
fn should_display_command_name_protocol_version() {
    let target = ModNutCommandName::ProtocolVersion;
    let result = target.to_string();

    assert_eq!(result, "PROTVER");
}

#[test]
fn should_display_command_name_set() {
    let target = ModNutCommandName::SetVariable;
    let result = target.to_string();

    assert_eq!(result, "SET");
}

#[test]
fn should_display_command_name_application_version() {
    let target = ModNutCommandName::ApplicationVersion;
    let result = target.to_string();

    assert_eq!(result, "VER");
}

#[test]
fn should_display_command_attach() {
    let target = ModNutCommand::Attach(upsname());
    let result = target.to_string();

    assert_eq!(result, "ATTACH upsname");
}

#[test]
fn should_display_command_detach() {
    let target = ModNutCommand::Detach;
    let result = target.to_string();

    assert_eq!(result, "DETACH");
}

#[test]
fn should_display_command_forced_shutdown() {
    let target = ModNutCommand::ForcedShutdown(upsname());
    let result = target.to_string();

    assert_eq!(result, "FSD upsname");
}

#[test]
fn should_display_command_get_instant_command_description() {
    let target = ModNutCommand::Get(ModNutGetCommand::InstantCommandDescription(
        upsname(),
        ModNutInstantCommandName("cmdname".to_string()),
    ));
    let result = target.to_string();

    assert_eq!(result, "GET CMDDESC upsname cmdname");
}

#[test]
fn should_display_command_get_variable_description() {
    let target = ModNutCommand::Get(ModNutGetCommand::VariableDescription(upsname(), varname()));
    let result = target.to_string();

    assert_eq!(result, "GET DESC upsname varname");
}

#[test]
fn should_display_command_get_active_systems() {
    let target = ModNutCommand::Get(ModNutGetCommand::ActiveSystems(upsname()));
    let result = target.to_string();

    assert_eq!(result, "GET NUMATTACH upsname");
}

#[test]
fn should_display_command_get_variable_type() {
    let target = ModNutCommand::Get(ModNutGetCommand::VariableType(upsname(), varname()));
    let result = target.to_string();

    assert_eq!(result, "GET TYPE upsname varname");
}

#[test]
fn should_display_command_get_ups_device_description() {
    let target = ModNutCommand::Get(ModNutGetCommand::UpsDeviceDescription(upsname()));
    let result = target.to_string();

    assert_eq!(result, "GET UPSDESC upsname");
}

#[test]
fn should_display_command_get_variable_value() {
    let target = ModNutCommand::Get(ModNutGetCommand::VariableValue(upsname(), varname()));
    let result = target.to_string();

    assert_eq!(result, "GET VAR upsname varname");
}

#[test]
fn should_display_command_help() {
    let target = ModNutCommand::Help;
    let result = target.to_string();

    assert_eq!(result, "HELP");
}

#[test]
fn should_display_command_instant_command() {
    let target = ModNutCommand::InstantCommand(upsname(), ModNutInstantCommandName("cmdname".to_string()));
    let result = target.to_string();

    assert_eq!(result, "INSTCMD upsname cmdname");
}

#[test]
fn should_display_command_list_clients() {
    let target = ModNutCommand::List(ModNutListCommand::Clients(upsname()));
    let result = target.to_string();

    assert_eq!(result, "LIST CLIENT upsname");
}

#[test]
fn should_display_command_list_instant_commands() {
    let target = ModNutCommand::List(ModNutListCommand::InstantCommands(upsname()));
    let result = target.to_string();

    assert_eq!(result, "LIST CMD upsname");
}

#[test]
fn should_display_command_list_variable_enum_variants() {
    let target = ModNutCommand::List(ModNutListCommand::VariableEnumVariants(upsname(), varname()));
    let result = target.to_string();

    assert_eq!(result, "LIST ENUM upsname varname");
}

#[test]
fn should_display_command_list_variable_range() {
    let target = ModNutCommand::List(ModNutListCommand::VariableRanges(upsname(), varname()));
    let result = target.to_string();

    assert_eq!(result, "LIST RANGE upsname varname");
}

#[test]
fn should_display_command_list_read_write_variables() {
    let target = ModNutCommand::List(ModNutListCommand::ReadWriteVariables(upsname()));
    let result = target.to_string();

    assert_eq!(result, "LIST RW upsname");
}

#[test]
fn should_display_command_list_ups_devices() {
    let target = ModNutCommand::List(ModNutListCommand::UpsDevices);
    let result = target.to_string();

    assert_eq!(result, "LIST UPS");
}

#[test]
fn should_display_command_list_variables() {
    let target = ModNutCommand::List(ModNutListCommand::Variables(upsname()));
    let result = target.to_string();

    assert_eq!(result, "LIST VAR upsname");
}

#[test]
fn should_display_command_protocol_version() {
    let target = ModNutCommand::ProtocolVersion;
    let result = target.to_string();

    assert_eq!(result, "PROTVER");
}

#[test]
fn should_display_command_set_variable_value_string() {
    let target = ModNutCommand::SetVariable(ModNutSetCommand::VariableValue(
        upsname(),
        varname(),
        ModNutVariableValue::String("value".to_string()),
    ));
    let result = target.to_string();

    assert_eq!(result, "SET VAR upsname varname \"value\"");
}

#[test]
fn should_display_command_set_variable_value_string_escaped() {
    let target = ModNutCommand::SetVariable(ModNutSetCommand::VariableValue(
        upsname(),
        varname(),
        ModNutVariableValue::String("\"value\"".to_string()),
    ));
    let result = target.to_string();

    assert_eq!(result, "SET VAR upsname varname \"\\\"value\\\"\"");
}

#[test]
fn should_display_command_set_variable_value_integer() {
    let target = ModNutCommand::SetVariable(ModNutSetCommand::VariableValue(
        upsname(),
        varname(),
        ModNutVariableValue::Integer(123),
    ));
    let result = target.to_string();

    assert_eq!(result, "SET VAR upsname varname \"123\"");
}

#[test]
fn should_display_command_set_variable_value_float() {
    let target = ModNutCommand::SetVariable(ModNutSetCommand::VariableValue(
        upsname(),
        varname(),
        ModNutVariableValue::Float(123.4f64.to_string()),
    ));
    let result = target.to_string();

    assert_eq!(result, "SET VAR upsname varname \"123.4\"");
}

#[test]
fn should_display_command_application_version() {
    let target = ModNutCommand::ApplicationVersion;
    let result = target.to_string();

    assert_eq!(result, "VER");
}

#[test]
fn should_display_instant_command_name() {
    let target = ModNutInstantCommandName("cmdname".to_string());
    let result = target.to_string();

    assert_eq!(result, "cmdname");
}

#[test]
fn should_display_instant_command_description() {
    let target = ModNutInstantCommandDescription("description".to_string());
    let result = target.to_string();

    assert_eq!(result, "description");
}

#[test]
fn should_display_instant_command_description_escaped() {
    let target = ModNutInstantCommandDescription("\"description\"".to_string());
    let result = target.to_string();

    assert_eq!(result, "\\\"description\\\"");
}

#[test]
fn should_escape_string_value() {
    let target = "test\t\"value\"\r\n\\\x1b";
    let result = escape_string_value(target);

    assert_eq!(result, "test\\t\\\"value\\\"\\r\\n\\\\\\x1b");
}

#[test]
fn should_unescape_string_value() {
    let target = "test\\t\\\"value\\\"\\r\\n\\\\\\x1b";
    let result = unescape_string_value(target);

    assert_eq!(result, Some("test\t\"value\"\r\n\\\x1b".to_string()));
}

#[test]
fn should_display_variable_name() {
    let target = ModNutVariableName("varname".to_string());
    let result = target.to_string();

    assert_eq!(result, "varname");
}

#[test]
fn should_display_variable_description() {
    let target = ModNutVariableDescription("description".to_string());
    let result = target.to_string();

    assert_eq!(result, "description");
}

#[test]
fn should_display_variable_description_escaped() {
    let target = ModNutVariableDescription("\"description\"".to_string());
    let result = target.to_string();

    assert_eq!(result, "\\\"description\\\"");
}

#[test]
fn should_display_variable_type_read_write() {
    let target = ModNutVariableType::ReadWrite;
    let result = target.to_string();

    assert_eq!(result, "RW");
}

#[test]
fn should_display_variable_type_enumeration() {
    let target = ModNutVariableType::Enumeration;
    let result = target.to_string();

    assert_eq!(result, "ENUM");
}

#[test]
fn should_display_variable_type_string() {
    let target = ModNutVariableType::String(123);
    let result = target.to_string();

    assert_eq!(result, "STRING:123");
}

#[test]
fn should_display_variable_type_range() {
    let target = ModNutVariableType::Range;
    let result = target.to_string();

    assert_eq!(result, "RANGE");
}

#[test]
fn should_display_variable_type_number() {
    let target = ModNutVariableType::Number;
    let result = target.to_string();

    assert_eq!(result, "NUMBER");
}

#[test]
fn should_display_variable_type_enum_variant() {
    let target = ModNutVariableTypeEnumVariant("variant".to_string());
    let result = target.to_string();

    assert_eq!(result, "variant");
}

#[test]
fn should_display_variable_type_enum_variant_escaped() {
    let target = ModNutVariableTypeEnumVariant("\"variant\"".to_string());
    let result = target.to_string();

    assert_eq!(result, "\\\"variant\\\"");
}

#[test]
fn should_display_variable_type_range_bound_integer() {
    let target = ModNutVariableTypeRangeBound::Integer(123);
    let result = target.to_string();

    assert_eq!(result, "123");
}

#[test]
fn should_display_variable_type_range_bound_float() {
    let target = ModNutVariableTypeRangeBound::Float(123.4f64.to_string());
    let result = target.to_string();

    assert_eq!(result, "123.4");
}

#[test]
fn should_display_variable_value_string() {
    let target = ModNutVariableValue::String("value".to_string());
    let result = target.to_string();

    assert_eq!(result, "value");
}

#[test]
fn should_display_variable_value_string_escaped() {
    let target = ModNutVariableValue::String("\"value\"".to_string());
    let result = target.to_string();

    assert_eq!(result, "\\\"value\\\"");
}

#[test]
fn should_display_variable_value_integer() {
    let target = ModNutVariableValue::Integer(123);
    let result = target.to_string();

    assert_eq!(result, "123");
}

#[test]
fn should_display_variable_value_float() {
    let target = ModNutVariableValue::Float(123.4f64.to_string());
    let result = target.to_string();

    assert_eq!(result, "123.4");
}
