use comsrv_protocols::command_batcher::{
    group_key, BatchCommand, CommandBatcher, BATCH_WINDOW_MS, MAX_BATCH_SIZE,
};
use comsrv_protocols::point::{ByteOrder, DataFormat};

fn create_test_command(
    point_id: u32,
    slave_id: u8,
    function_code: u8,
    register_address: u16,
    data_format: DataFormat,
) -> BatchCommand<f64> {
    BatchCommand {
        point_id,
        value: 100.0,
        slave_id,
        function_code,
        register_address,
        data_format,
        byte_order: ByteOrder::Abcd,
    }
}

#[test]
fn test_new_creates_empty_batcher() {
    let batcher = CommandBatcher::<f64>::new();

    assert_eq!(batcher.pending_count(), 0);
    assert!(batcher.is_empty());
}

#[test]
fn test_default_is_equivalent_to_new() {
    let batcher1 = CommandBatcher::<f64>::new();
    let batcher2 = CommandBatcher::<f64>::default();

    assert_eq!(batcher1.pending_count(), batcher2.pending_count());
}

#[test]
fn test_pending_count_after_add() {
    let mut batcher = CommandBatcher::new();

    batcher.add_command(create_test_command(1, 1, 6, 100, DataFormat::UInt16));
    assert_eq!(batcher.pending_count(), 1);

    batcher.add_command(create_test_command(2, 1, 6, 101, DataFormat::UInt16));
    assert_eq!(batcher.pending_count(), 2);
}

#[test]
fn test_pending_count_resets_after_take() {
    let mut batcher = CommandBatcher::new();

    batcher.add_command(create_test_command(1, 1, 6, 100, DataFormat::UInt16));
    batcher.add_command(create_test_command(2, 1, 6, 101, DataFormat::UInt16));
    assert_eq!(batcher.pending_count(), 2);

    let _ = batcher.take_commands();
    assert_eq!(batcher.pending_count(), 0);
}

#[test]
fn test_should_execute_false_when_empty_and_recent() {
    let batcher = CommandBatcher::<f64>::new();

    // Just created: not due yet.
    assert!(!batcher.should_execute());
}

#[test]
fn test_should_execute_true_at_max_batch_size() {
    let mut batcher = CommandBatcher::new();

    for i in 0..MAX_BATCH_SIZE {
        batcher.add_command(create_test_command(i as u32, 1, 6, i as u16, DataFormat::UInt16));
    }

    assert!(batcher.should_execute());
}

#[test]
fn should_execute_after_window() {
    let mut batcher = CommandBatcher::new();
    batcher.add_command(create_test_command(1, 1, 6, 100, DataFormat::UInt16));
    assert!(!batcher.should_execute_after(u128::from(BATCH_WINDOW_MS) - 1));
    assert!(batcher.should_execute_after(u128::from(BATCH_WINDOW_MS)));
}

#[test]
fn test_take_commands_returns_all_pending() {
    let mut batcher = CommandBatcher::new();

    batcher.add_command(create_test_command(1, 1, 6, 100, DataFormat::UInt16));
    batcher.add_command(create_test_command(2, 1, 6, 101, DataFormat::UInt16));
    batcher.add_command(create_test_command(3, 2, 6, 200, DataFormat::UInt16));

    let commands = batcher.take_commands();

    // Grouped by (slave_id, function_code).
    assert_eq!(commands.len(), 2);
    assert_eq!(commands.get(&group_key(1, 6)).map(|v| v.len()), Some(2));
    assert_eq!(commands.get(&group_key(2, 6)).map(|v| v.len()), Some(1));
}

#[test]
fn test_take_commands_empties_batcher() {
    let mut batcher = CommandBatcher::new();

    batcher.add_command(create_test_command(1, 1, 6, 100, DataFormat::UInt16));
    let _ = batcher.take_commands();

    assert!(batcher.is_empty());
    assert_eq!(batcher.pending_count(), 0);
}

#[test]
fn test_add_command_groups_by_slave_and_function() {
    let mut batcher = CommandBatcher::new();

    batcher.add_command(create_test_command(1, 1, 6, 100, DataFormat::UInt16));
    batcher.add_command(create_test_command(2, 1, 6, 101, DataFormat::UInt16));
    batcher.add_command(create_test_command(3, 2, 6, 100, DataFormat::UInt16));
    batcher.add_command(create_test_command(4, 1, 16, 100, DataFormat::UInt16));

    let commands = batcher.take_commands();

    assert_eq!(commands.len(), 3);
    assert_eq!(commands.get(&group_key(1, 6)).map(|v| v.len()), Some(2));
    assert_eq!(commands.get(&group_key(2, 6)).map(|v| v.len()), Some(1));
    assert_eq!(commands.get(&group_key(1, 16)).map(|v| v.len()), Some(1));
}

#[test]
fn test_add_command_preserves_all_fields() {
    let mut batcher = CommandBatcher::new();

    let cmd = BatchCommand {
        point_id: 42,
        value: 123.456,
        slave_id: 5,
        function_code: 16,
        register_address: 999,
        data_format: DataFormat::Float32,
        byte_order: ByteOrder::Cdab,
    };

    batcher.add_command(cmd);
    let commands = batcher.take_commands();

    let stored = &commands.get(&group_key(5, 16)).unwrap()[0];
    assert_eq!(stored.point_id, 42);
    assert_eq!(stored.slave_id, 5);
    assert_eq!(stored.function_code, 16);
    assert_eq!(stored.register_address, 999);
    assert!(matches!(stored.data_format, DataFormat::Float32));
    assert!(matches!(stored.byte_order, ByteOrder::Cdab));
}

#[test]
fn test_consecutive_single_command_returns_false() {
    let commands = vec![create_test_command(1, 1, 6, 100, DataFormat::UInt16)];
    assert!(!CommandBatcher::are_strictly_consecutive(&commands));
}

#[test]
fn test_consecutive_empty_returns_false() {
    let commands: Vec<BatchCommand<f64>> = vec![];
    assert!(!CommandBatcher::are_strictly_consecutive(&commands));
}

#[test]
fn test_consecutive_uint16_sequence() {
    let commands = vec![
        create_test_command(1, 1, 6, 100, DataFormat::UInt16),
        create_test_command(2, 1, 6, 101, DataFormat::UInt16),
        create_test_command(3, 1, 6, 102, DataFormat::UInt16),
    ];
    assert!(CommandBatcher::are_strictly_consecutive(&commands));
}

#[test]
fn test_consecutive_float32_sequence() {
    let commands = vec![
        create_test_command(1, 1, 6, 100, DataFormat::Float32),
        create_test_command(2, 1, 6, 102, DataFormat::Float32),
        create_test_command(3, 1, 6, 104, DataFormat::Float32),
    ];
    assert!(CommandBatcher::are_strictly_consecutive(&commands));
}

#[test]
fn test_consecutive_mixed_types() {
    let commands = vec![
        create_test_command(1, 1, 6, 100, DataFormat::UInt16),
        create_test_command(2, 1, 6, 101, DataFormat::Float32),
        create_test_command(3, 1, 6, 103, DataFormat::UInt16),
    ];
    assert!(CommandBatcher::are_strictly_consecutive(&commands));
}

#[test]
fn test_non_consecutive_gap() {
    let commands = vec![
        create_test_command(1, 1, 6, 100, DataFormat::UInt16),
        create_test_command(2, 1, 6, 105, DataFormat::UInt16),
    ];
    assert!(!CommandBatcher::are_strictly_consecutive(&commands));
}

#[test]
fn test_consecutive_out_of_order_input() {
    let commands = vec![
        create_test_command(3, 1, 6, 102, DataFormat::UInt16),
        create_test_command(1, 1, 6, 100, DataFormat::UInt16),
        create_test_command(2, 1, 6, 101, DataFormat::UInt16),
    ];
    assert!(CommandBatcher::are_strictly_consecutive(&commands));
}

#[test]
fn consecutive_overlap_and_duplicates_refused() {
    // A Float32 at 100 covers 101: the UInt16 at 101 overlaps it.
    let overlap = vec![
        create_test_command(1, 1, 6, 100, DataFormat::Float32),
        create_test_command(2, 1, 6, 101, DataFormat::UInt16),
    ];
    assert!(!CommandBatcher::are_strictly_consecutive(&overlap));
    let dup = vec![
        create_test_command(1, 1, 6, 100, DataFormat::UInt16),
        create_test_command(2, 1, 6, 100, DataFormat::UInt16),
    ];
    assert!(!CommandBatcher::are_strictly_consecutive(&dup));
}

#[test]
fn consecutive_at_top_of_register_space() {
    let commands = vec![
        create_test_command(1, 1, 6, 65533, DataFormat::Float32),
        create_test_command(2, 1, 6, 65535, DataFormat::UInt16),
    ];
    assert!(CommandBatcher::are_strictly_consecutive(&commands));
}

#[test]
fn test_batch_workflow() {
    let mut batcher = CommandBatcher::new();

    assert_eq!(batcher.pending_count(), 0);

    for i in 0..5 {
        batcher.add_command(create_test_command(i, 1, 6, 100 + i as u16, DataFormat::UInt16));
    }
    assert_eq!(batcher.pending_count(), 5);

    let batch = batcher.take_commands();
    assert_eq!(batch.get(&group_key(1, 6)).unwrap().len(), 5);

    assert_eq!(batcher.pending_count(), 0);
    assert!(batcher.is_empty());
}

#[test]
fn group_keys_differ_by_slave_and_function() {
    assert_eq!(group_key(1, 6), 0x0106);
    assert_ne!(group_key(1, 16), group_key(2, 6));
}
