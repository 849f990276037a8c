use trustworthiness_checker::dist::PathGenerator;
use trustworthiness_checker::topics::{forwarded_to_ros, mqtt_payload_kind, MqttPayloadKind, Topic};

#[test]
fn only_spin_and_goal_messages_go_to_ros() {
    assert!(forwarded_to_ros("/spin_config"));
    assert!(forwarded_to_ros("/goal_pose"));
    assert!(!forwarded_to_ros("/Scan"));
    assert!(!forwarded_to_ros("Odometry"));
    assert!(!forwarded_to_ros(""));
}

#[test]
fn payload_kind_follows_the_fields_present() {
    assert_eq!(mqtt_payload_kind(true, true, false, false), Some(MqttPayloadKind::SpinCommands));
    assert_eq!(mqtt_payload_kind(true, true, true, true), Some(MqttPayloadKind::SpinCommands));
    assert_eq!(mqtt_payload_kind(true, false, true, true), Some(MqttPayloadKind::PoseStamped));
    assert_eq!(mqtt_payload_kind(false, false, true, false), None);
    assert_eq!(mqtt_payload_kind(false, true, false, true), None);
}

#[test]
fn velocity_components_have_their_own_topics() {
    let t = Topic::ros_topic("/cmd_vel").unwrap();
    assert_eq!(t.linear_x_topic(), "NormalVelocityLinearX");
    assert_eq!(t.angular_z_topic(), "NormalVelocityAngularZ");
    let m = Topic::ros_topic("/cmd_vel_monitor").unwrap();
    assert_eq!(m.linear_x_topic(), "CollisionDetectLinearX");
}

#[test]
fn a_path_walk_starts_at_its_origin() {
    let g = PathGenerator::new(7);
    assert_eq!(g.active_paths, vec![Vec::<usize>::new()]);
    assert!(g.next_paths.is_empty());
    assert_eq!(g.active_neighbours, vec![7]);
}
