use sensor_profiles::device::{DummySerialPort, MockSerialPort};
use sensor_profiles::protocol::{get_current_thresholds_from_device, read_sensor_values,
    set_all_thresholds, set_threshold, DeviceError};

#[test]
fn test_get_current_thresholds_with_mock() {
    let mut port = MockSerialPort::new([10, 20, 30, 40]);
    let thresholds = get_current_thresholds_from_device(&mut port).unwrap();
    assert_eq!(thresholds, [10, 20, 30, 40]);
}

#[test]
fn test_set_threshold_with_mock() {
    let mut port = MockSerialPort::new([10, 20, 30, 40]);
    set_threshold(&mut port, 2, 123).unwrap();
    let thresholds = get_current_thresholds_from_device(&mut port).unwrap();
    assert_eq!(thresholds[2], 123);
}

#[test]
fn test_set_all_thresholds_with_mock() {
    let mut port = MockSerialPort::new([10, 20, 30, 40]);
    set_all_thresholds(&mut port, [1, 2, 3, 4]).unwrap();
    let thresholds = get_current_thresholds_from_device(&mut port).unwrap();
    assert_eq!(thresholds, [1, 2, 3, 4]);
}

#[test]
fn test_read_sensor_values_with_mock() {
    let mut port = MockSerialPort::new([100, 200, 300, 400]);
    let values = read_sensor_values(&mut port).unwrap();
    assert_eq!(values.len(), 4);
    for v in values {
        assert!(v >= 0 && v <= 1023);
    }
}

#[test]
fn test_dummy_serial_errors() {
    let mut port = DummySerialPort;
    assert!(read_sensor_values(&mut port).is_err());
    assert!(get_current_thresholds_from_device(&mut port).is_err());
    assert!(set_threshold(&mut port, 0, 42).is_err());
}

#[test]
fn test_negative_thresholds_round_trip() {
    let mut port = MockSerialPort::new([0, 0, 0, 0]);
    set_all_thresholds(&mut port, [-2147483648, -1, 0, 2147483647]).unwrap();
    let thresholds = get_current_thresholds_from_device(&mut port).unwrap();
    assert_eq!(thresholds, [-2147483648, -1, 0, 2147483647]);
}

#[test]
fn test_dummy_error_text() {
    let mut port = DummySerialPort;
    let err = read_sensor_values(&mut port).unwrap_err();
    assert_eq!(err.text(), "Dummy serial port - no data available");
}

#[test]
fn test_device_error_texts() {
    assert_eq!(DeviceError::BadSensorFormat.text(), "Invalid response format");
    assert_eq!(DeviceError::SensorParse.text(), "Failed to parse sensor value");
    assert_eq!(
        DeviceError::BadThresholdFormat.text(),
        "Invalid threshold response format"
    );
    assert_eq!(
        DeviceError::ThresholdParse.text(),
        "Failed to parse threshold value"
    );
    assert_eq!(
        DeviceError::Validation { expected: 7, got: -3 }.text(),
        "Threshold validation failed: expected 7, got -3"
    );
    assert_eq!(
        DeviceError::Timeout { message: "Timeout reading sensor values".to_string() }.text(),
        "Timeout reading sensor values"
    );
}

#[test]
fn test_mock_telemetry_oscillates() {
    let mut port = MockSerialPort::new([0, 0, 0, 0]);
    let first = read_sensor_values(&mut port).unwrap();
    let second = read_sensor_values(&mut port).unwrap();
    assert_ne!(first, second);
    for v in first.iter().chain(second.iter()) {
        assert!(*v >= 0 && *v <= 1023);
    }
}
