use modnut::address::{ModNutUpsDeviceActiveSystems, ModNutUpsDeviceDescription, ModNutUpsDeviceName};
use modnut::command::{ModNutCommandName, ModNutInstantCommandDescription, ModNutInstantCommandName};
use modnut::response::{
    ModNutGetResponse, ModNutHelpResponse, ModNutListResponse, ModNutListResponseClient, ModNutResponse,
    ModNutResponseOkMessage, ModNutResponseVersion,
};
use modnut::variable::{
    ModNutVariableDescription, ModNutVariableName, ModNutVariableType, ModNutVariableTypeEnumVariant,
    ModNutVariableTypeRangeBound, ModNutVariableValue,
};

fn upsname() -> ModNutUpsDeviceName {
    ModNutUpsDeviceName("upsname".to_string())
}

fn varname() -> ModNutVariableName {
    ModNutVariableName("varname".to_string())
}

#[test]
fn ok_responses() {
    assert_eq!(ModNutResponse::Okay(None).to_string(), "OK");
    assert_eq!(ModNutResponse::Okay(Some(ModNutResponseOkMessage::Goodbye)).to_string(), "OK Goodbye");
    assert_eq!(
        ModNutResponse::Okay(Some(ModNutResponseOkMessage::ForcedShutdownInitiated)).to_string(),
        "OK FSD-SET"
    );
    assert_eq!(
        ModNutResponse::Okay(Some(ModNutResponseOkMessage::Other("done".to_string()))).to_string(),
        "OK done"
    );
}

#[test]
fn version_response() {
    let response = ModNutResponse::Version(ModNutResponseVersion("1.3".to_string()));
    assert_eq!(response.to_string(), "1.3");
}

#[test]
fn get_responses() {
    let cases = vec![
        (
            ModNutGetResponse::InstantCommandDescription(
                upsname(),
                ModNutInstantCommandName("cmdname".to_string()),
                ModNutInstantCommandDescription("Start a \"test\"".to_string()),
            ),
            "CMDDESC upsname cmdname \"Start a \\\"test\\\"\"",
        ),
        (
            ModNutGetResponse::VariableDescription(
                upsname(),
                varname(),
                ModNutVariableDescription("description".to_string()),
            ),
            "DESC upsname varname \"description\"",
        ),
        (
            ModNutGetResponse::ActiveSystems(upsname(), ModNutUpsDeviceActiveSystems(2)),
            "NUMATTACH upsname 2",
        ),
        (
            ModNutGetResponse::UpsDeviceDescription(upsname(), ModNutUpsDeviceDescription("Big UPS".to_string())),
            "UPSDESC upsname \"Big UPS\"",
        ),
        (
            ModNutGetResponse::VariableValue(upsname(), varname(), ModNutVariableValue::Integer(100)),
            "VAR upsname varname \"100\"",
        ),
    ];
    for (response, expected) in cases {
        assert_eq!(ModNutResponse::Get(response).to_string(), expected);
    }
}

#[test]
fn get_type_response_separates_its_words_by_single_spaces() {
    let response = ModNutGetResponse::VariableType(
        upsname(),
        varname(),
        vec![ModNutVariableType::ReadWrite, ModNutVariableType::String(32)],
    );
    assert_eq!(response.to_string(), "TYPE upsname varname RW STRING:32");
    let untyped = ModNutGetResponse::VariableType(upsname(), varname(), vec![]);
    assert_eq!(untyped.to_string(), "TYPE upsname varname");
}

#[test]
fn help_response() {
    let response = ModNutHelpResponse(vec![ModNutCommandName::Get, ModNutCommandName::List]);
    assert_eq!(ModNutResponse::Help(response).to_string(), "Commands: GET LIST");
    assert_eq!(ModNutHelpResponse(vec![]).to_string(), "Commands:");
}

#[test]
fn list_responses() {
    let clients = ModNutListResponse::Clients(upsname(), vec![ModNutListResponseClient("127.0.0.1".to_string())]);
    assert_eq!(
        clients.to_string(),
        "BEGIN LIST CLIENT upsname\nCLIENT upsname 127.0.0.1\nEND LIST CLIENT upsname\n"
    );

    let commands = ModNutListResponse::InstantCommands(
        upsname(),
        vec![ModNutInstantCommandName("a".to_string()), ModNutInstantCommandName("b".to_string())],
    );
    assert_eq!(
        commands.to_string(),
        "BEGIN LIST CMD upsname\nCMD upsname a\nCMD upsname b\nEND LIST CMD upsname\n"
    );

    let variants = ModNutListResponse::VariableEnumVariants(
        upsname(),
        varname(),
        vec![ModNutVariableTypeEnumVariant("say \"hi\"".to_string())],
    );
    assert_eq!(
        variants.to_string(),
        "BEGIN LIST ENUM upsname varname\nLIST ENUM upsname varname \"say \\\"hi\\\"\"\nEND LIST ENUM upsname varname\n"
    );

    let ranges = ModNutListResponse::VariableRanges(
        upsname(),
        varname(),
        vec![(ModNutVariableTypeRangeBound::Integer(1), ModNutVariableTypeRangeBound::Float(2.5f64.to_string()))],
    );
    assert_eq!(
        ranges.to_string(),
        "BEGIN LIST RANGE upsname varname\nLIST RANGE upsname varname \"1\" \"2.5\"\nEND LIST RANGE upsname varname\n"
    );

    let read_write = ModNutListResponse::ReadWriteVariables(
        upsname(),
        vec![(varname(), ModNutVariableValue::String("on".to_string()))],
    );
    assert_eq!(
        read_write.to_string(),
        "BEGIN LIST RW upsname\nLIST RW upsname varname \"on\"\nEND LIST RW upsname\n"
    );

    let devices = ModNutListResponse::UpsDevices(vec![(upsname(), ModNutUpsDeviceDescription("Main".to_string()))]);
    assert_eq!(devices.to_string(), "BEGIN LIST UPS\nLIST UPS upsname \"Main\"\nEND LIST UPS\n");

    let variables = ModNutListResponse::Variables(
        upsname(),
        vec![(varname(), ModNutVariableValue::Integer(5))],
    );
    assert_eq!(
        variables.to_string(),
        "BEGIN LIST VAR upsname\nLIST VAR upsname varname \"5\"\nEND LIST VAR upsname\n"
    );

    let variables = ModNutListResponse::Variables(upsname(), vec![]);
    assert_eq!(
        ModNutResponse::List(variables).to_string(),
        "BEGIN LIST VAR upsname\nEND LIST VAR upsname\n"
    );
}
