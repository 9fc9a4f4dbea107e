use comsrv_protocols::point::{quality_from_u8, Quality};
use comsrv_protocols::script_runner::{
    convert_plugin_points, default_quality, parse_quality, point_type_from_code, response_points,
    PluginDataPoint, ScriptError,
};
use comsrv_protocols::point::PointType;

#[test]
fn test_parse_quality() {
    assert_eq!(parse_quality("good"), Quality::Good);
    assert_eq!(parse_quality("Good"), Quality::Good);
    assert_eq!(parse_quality("bad"), Quality::Bad);
    assert_eq!(parse_quality("uncertain"), Quality::Uncertain);
    assert_eq!(parse_quality("invalid"), Quality::Invalid);
    assert_eq!(parse_quality("unknown"), Quality::Good);
}

#[test]
fn quality_defaults_and_codes() {
    assert_eq!(default_quality(), "good");
    assert_eq!(parse_quality("INVALID"), Quality::Invalid);
    assert_eq!(Quality::LastKnown.code(), 13);
    assert_eq!(quality_from_u8(4), Quality::NotConnected);
    assert_eq!(quality_from_u8(200), Quality::Bad);
    for q in [Quality::Good, Quality::Overflow, Quality::ConfigError] {
        assert_eq!(quality_from_u8(q.code()), q);
    }
}

#[test]
fn test_convert_plugin_points() {
    let points = vec![
        PluginDataPoint {
            point_id: 101,
            point_type: "T".to_string(),
            value: serde_json::Value::from(42.5),
            quality: "good".to_string(),
        },
        PluginDataPoint {
            point_id: 110,
            point_type: "S".to_string(),
            value: serde_json::Value::Bool(true),
            quality: "bad".to_string(),
        },
    ];

    let batch = convert_plugin_points(&points).unwrap();
    assert_eq!(batch.len(), 2);

    let p1 = batch.iter().next().unwrap();
    assert_eq!(p1.id, 101);
    assert_eq!(p1.point_type, PointType::Telemetry);
    assert_eq!(p1.quality, Quality::Good);
    assert_eq!(batch[1].value, serde_json::Value::Bool(true));
    assert_eq!(batch[1].quality, Quality::Bad);
}

#[test]
fn plugin_point_kind_refused() {
    let points = vec![PluginDataPoint {
        point_id: 1,
        point_type: "X".to_string(),
        value: 0u8,
        quality: "good".to_string(),
    }];
    assert_eq!(
        convert_plugin_points(&points).unwrap_err(),
        ScriptError::InvalidPointType("X".to_string())
    );
    assert_eq!(point_type_from_code("A"), Some(PointType::Adjustment));
    assert_eq!(point_type_from_code("C"), Some(PointType::Control));
    assert_eq!(point_type_from_code("t"), None);
    assert_eq!(point_type_from_code("TT"), None);
}

#[test]
fn script_response_error_and_empty() {
    assert_eq!(
        response_points::<u8>(Some("boom".to_string()), None).unwrap_err(),
        ScriptError::Transform("boom".to_string())
    );
    assert!(response_points::<u8>(None, None).unwrap().is_empty());
}
