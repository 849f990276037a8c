use vstd::prelude::*;

verus! {

/// A topic known to the bridge, by its ROS name and its MQTT name.
#[derive(Debug, Clone, Copy)]
pub struct Topic {
    pub ros_name: &'static str,
    pub mqtt_name: &'static str,
}

/// Whether two texts are equal.
pub fn str_equal(a: &str, b: &str) -> (res: bool)
    ensures
        res == (a@ == b@),
{
    let n = a.unicode_len();
    if n != b.unicode_len() {
        return false;
    }
    let mut i: usize = 0;
    while i < n
        invariant
            n == a@.len(),
            n == b@.len(),
            i <= n,
            forall|j: int| 0 <= j < i ==> a@[j] == b@[j],
        decreases n - i,
    {
        if a.get_char(i) != b.get_char(i) {
            return false;
        }
        i = i + 1;
    }
    proof {
        assert(a@ =~= b@);
    }
    true
}

/// The topics the bridge knows, as (ROS name, MQTT name) pairs.
pub open spec fn topic_table() -> Seq<(Seq<char>, Seq<char>)> {
    seq![
        ("/scan_safe"@, "/Scan"@),
        ("/spin_config"@, "/spin_config"@),
        ("/cmd_vel_monitor"@, "CollisionDetect"@),
        ("/cmd_vel"@, "NormalVelocity"@),
        ("/odom"@, "Odometry"@),
        ("/goal_pose"@, "/goal_pose"@),
    ]
}

/// The position of the first topic whose ROS name (`by_ros`) or MQTT name is `name`.
pub open spec fn topic_index(by_ros: bool, name: Seq<char>, k: int) -> Option<int>
    decreases topic_table().len() - k,
{
    if k < 0 || k >= topic_table().len() {
        None
    } else if (if by_ros {
        topic_table()[k].0
    } else {
        topic_table()[k].1
    }) == name {
        Some(k)
    } else {
        topic_index(by_ros, name, k + 1)
    }
}

/// The model of a topic.
pub open spec fn topic_view(t: Topic) -> (Seq<char>, Seq<char>) {
    (t.ros_name@, t.mqtt_name@)
}

/// The topics the bridge knows, in order.
pub fn topics() -> (res: Vec<Topic>)
    ensures
        res.len() == topic_table().len(),
        forall|i: int| 0 <= i < res.len() ==> topic_view(#[trigger] res@[i]) == topic_table()[i],
{
    let mut v: Vec<Topic> = Vec::new();
    v.push(Topic { ros_name: "/scan_safe", mqtt_name: "/Scan" });
    v.push(Topic { ros_name: "/spin_config", mqtt_name: "/spin_config" });
    v.push(Topic { ros_name: "/cmd_vel_monitor", mqtt_name: "CollisionDetect" });
    v.push(Topic { ros_name: "/cmd_vel", mqtt_name: "NormalVelocity" });
    v.push(Topic { ros_name: "/odom", mqtt_name: "Odometry" });
    v.push(Topic { ros_name: "/goal_pose", mqtt_name: "/goal_pose" });
    v
}

/// The first known topic whose name (ROS or MQTT, as `by_ros` says) is `name`.
fn find_topic(by_ros: bool, name: &str) -> (res: Option<Topic>)
    ensures
        match res {
            Some(t) => match topic_index(by_ros, name@, 0) {
                Some(i) => topic_view(t) == topic_table()[i],
                None => false,
            },
            None => topic_index(by_ros, name@, 0) is None,
        },
{
    let table = topics();
    let mut i: usize = 0;
    while i < table.len()
        invariant
            i <= table.len(),
            table.len() == topic_table().len(),
            forall|j: int| 0 <= j < table.len() ==> topic_view(#[trigger] table@[j]) == topic_table()[j],
            topic_index(by_ros, name@, 0) == topic_index(by_ros, name@, i as int),
        decreases table.len() - i,
    {
        let t = table[i];
        proof {
            assert(topic_view(table@[i as int]) == topic_table()[i as int]);
        }
        let matched = if by_ros {
            str_equal(t.ros_name, name)
        } else {
            str_equal(t.mqtt_name, name)
        };
        if matched {
            return Some(t);
        }
        i = i + 1;
    }
    None
}

impl Topic {
    /// The known topic with the given ROS name.
    pub fn ros_topic(topic: &str) -> (res: Option<Topic>)
        ensures
            match res {
                Some(t) => match topic_index(true, topic@, 0) {
                    Some(i) => topic_view(t) == topic_table()[i],
                    None => false,
                },
                None => topic_index(true, topic@, 0) is None,
            },
    {
        find_topic(true, topic)
    }

    /// The known topic with the given MQTT name.
    pub fn mqtt_topic(topic: &str) -> (res: Option<Topic>)
        ensures
            match res {
                Some(t) => match topic_index(false, topic@, 0) {
                    Some(i) => topic_view(t) == topic_table()[i],
                    None => false,
                },
                None => topic_index(false, topic@, 0) is None,
            },
    {
        find_topic(false, topic)
    }
}

impl Topic {
    /// The MQTT topic that carries the linear `x` component of a velocity
    /// published on this topic.
    pub fn linear_x_topic(&self) -> (res: String)
        ensures
            res@ == self.mqtt_name@ + "LinearX"@,
    {
        let mut t = String::from_str(self.mqtt_name);
        t.append("LinearX");
        t
    }

    /// The MQTT topic that carries the angular `z` component of a velocity
    /// published on this topic.
    pub fn angular_z_topic(&self) -> (res: String)
        ensures
            res@ == self.mqtt_name@ + "AngularZ"@,
    {
        let mut t = String::from_str(self.mqtt_name);
        t.append("AngularZ");
        t
    }
}

/// What a message from MQTT becomes on the ROS side.
#[derive(Debug, Clone, Copy, PartialEq, Eq, Structural)]
pub enum MqttPayloadKind {
    /// Spin commands, for the spin configuration topic.
    SpinCommands,
    /// A goal pose.
    PoseStamped,
}

/// Whether a message from MQTT on `topic` is forwarded to ROS: only the MQTT
/// names of the spin configuration and goal pose topics are.
pub fn forwarded_to_ros(topic: &str) -> (res: bool)
    ensures
        res == (topic@ == topic_table()[1].1 || topic@ == topic_table()[5].1),
{
    let table = topics();
    str_equal(topic, table[1].mqtt_name) || str_equal(topic, table[5].mqtt_name)
}

/// The kind of a payload from MQTT, told by the fields it has: `commands` and
/// `period` make spin commands; otherwise `position` and `orientation` make a
/// goal pose; with neither pair the payload is refused.
pub fn mqtt_payload_kind(has_commands: bool, has_period: bool, has_position: bool, has_orientation: bool) -> (res:
    Option<MqttPayloadKind>)
    ensures
        (has_commands && has_period) ==> res == Some(MqttPayloadKind::SpinCommands),
        !(has_commands && has_period) && has_position && has_orientation ==> res == Some(
            MqttPayloadKind::PoseStamped,
        ),
        !(has_commands && has_period) && !(has_position && has_orientation) ==> res is None,
{
    if has_commands && has_period {
        Some(MqttPayloadKind::SpinCommands)
    } else if has_position && has_orientation {
        Some(MqttPayloadKind::PoseStamped)
    } else {
        None
    }
}

} // verus!
