//! Each bundled message is defined by a loadable text that names only messages before it.
use vstd::prelude::*;
use crate::defs::MESSAGES;
use crate::loadable::{loadable, name_end, refers_to_one, same, three_names, value_end};

verus! {

/// Whether a bundled message has a full name, and its definition is loadable with the
/// bundled messages `refs`, each of which stands before it.
pub open spec fn ready(n: int, refs: Seq<int>) -> bool {
    &&& three_names(MESSAGES@[n].0@)
    &&& forall|j: int| 0 <= j < refs.len() ==> 0 <= #[trigger] refs[j] < n
    &&& loadable(MESSAGES@[n].1@, 0, MESSAGES@[n].0@, refs)
}

proof fn lemma_time()
    ensures
        ready(0, Seq::empty()),
{
    reveal_strlit("builtin_interfaces/msg/Time");
    reveal_strlit("int32 sec\nuint32 nanosec\n");
    reveal_with_fuel(name_end, 20);
    reveal_with_fuel(same, 8);
    reveal_with_fuel(loadable, 4);
}

proof fn lemma_duration()
    ensures
        ready(1, Seq::empty()),
{
    reveal_strlit("builtin_interfaces/msg/Duration");
    reveal_strlit("int32 sec\nuint32 nanosec\n");
    reveal_with_fuel(name_end, 20);
    reveal_with_fuel(same, 8);
    reveal_with_fuel(loadable, 4);
}

#[verifier::spinoff_prover]
#[verifier::rlimit(100)]
proof fn lemma_header()
    ensures
        ready(2, seq![0]),
{
    reveal_strlit("builtin_interfaces/msg/Time");
    reveal_strlit("std_msgs/msg/Header");
    reveal_strlit("builtin_interfaces/Time stamp\nstring frame_id\n");
    reveal_with_fuel(name_end, 20);
    reveal_with_fuel(same, 20);
    reveal_with_fuel(refers_to_one, 2);
    reveal_with_fuel(loadable, 4);
}

proof fn lemma_string()
    ensures
        ready(3, Seq::empty()),
{
    reveal_strlit("std_msgs/msg/String");
    reveal_strlit("string data\n");
    reveal_with_fuel(name_end, 10);
    reveal_with_fuel(same, 8);
    reveal_with_fuel(loadable, 3);
}

proof fn lemma_bool()
    ensures
        ready(4, Seq::empty()),
{
    reveal_strlit("std_msgs/msg/Bool");
    reveal_strlit("bool data\n");
    reveal_with_fuel(name_end, 10);
    reveal_with_fuel(same, 6);
    reveal_with_fuel(loadable, 3);
}

proof fn lemma_char()
    ensures
        ready(5, Seq::empty()),
{
    reveal_strlit("std_msgs/msg/Char");
    reveal_strlit("char data\n");
    reveal_with_fuel(name_end, 10);
    reveal_with_fuel(same, 6);
    reveal_with_fuel(loadable, 3);
}

proof fn lemma_byte()
    ensures
        ready(6, Seq::empty()),
{
    reveal_strlit("std_msgs/msg/Byte");
    reveal_strlit("byte data\n");
    reveal_with_fuel(name_end, 10);
    reveal_with_fuel(same, 6);
    reveal_with_fuel(loadable, 3);
}

proof fn lemma_int8()
    ensures
        ready(7, Seq::empty()),
{
    reveal_strlit("std_msgs/msg/Int8");
    reveal_strlit("int8 data\n");
    reveal_with_fuel(name_end, 10);
    reveal_with_fuel(same, 6);
    reveal_with_fuel(loadable, 3);
}

proof fn lemma_int16()
    ensures
        ready(8, Seq::empty()),
{
    reveal_strlit("std_msgs/msg/Int16");
    reveal_strlit("int16 data\n");
    reveal_with_fuel(name_end, 10);
    reveal_with_fuel(same, 7);
    reveal_with_fuel(loadable, 3);
}

proof fn lemma_int32()
    ensures
        ready(9, Seq::empty()),
{
    reveal_strlit("std_msgs/msg/Int32");
    reveal_strlit("int32 data\n");
    reveal_with_fuel(name_end, 10);
    reveal_with_fuel(same, 7);
    reveal_with_fuel(loadable, 3);
}

proof fn lemma_int64()
    ensures
        ready(10, Seq::empty()),
{
    reveal_strlit("std_msgs/msg/Int64");
    reveal_strlit("int64 data\n");
    reveal_with_fuel(name_end, 10);
    reveal_with_fuel(same, 7);
    reveal_with_fuel(loadable, 3);
}

proof fn lemma_u_int8()
    ensures
        ready(11, Seq::empty()),
{
    reveal_strlit("std_msgs/msg/UInt8");
    reveal_strlit("uint8 data\n");
    reveal_with_fuel(name_end, 10);
    reveal_with_fuel(same, 7);
    reveal_with_fuel(loadable, 3);
}

proof fn lemma_u_int16()
    ensures
        ready(12, Seq::empty()),
{
    reveal_strlit("std_msgs/msg/UInt16");
    reveal_strlit("uint16 data\n");
    reveal_with_fuel(name_end, 10);
    reveal_with_fuel(same, 8);
    reveal_with_fuel(loadable, 3);
}

proof fn lemma_u_int32()
    ensures
        ready(13, Seq::empty()),
{
    reveal_strlit("std_msgs/msg/UInt32");
    reveal_strlit("uint32 data\n");
    reveal_with_fuel(name_end, 10);
    reveal_with_fuel(same, 8);
    reveal_with_fuel(loadable, 3);
}

proof fn lemma_u_int64()
    ensures
        ready(14, Seq::empty()),
{
    reveal_strlit("std_msgs/msg/UInt64");
    reveal_strlit("uint64 data\n");
    reveal_with_fuel(name_end, 10);
    reveal_with_fuel(same, 8);
    reveal_with_fuel(loadable, 3);
}

proof fn lemma_float32()
    ensures
        ready(15, Seq::empty()),
{
    reveal_strlit("std_msgs/msg/Float32");
    reveal_strlit("float32 data\n");
    reveal_with_fuel(name_end, 10);
    reveal_with_fuel(same, 9);
    reveal_with_fuel(loadable, 3);
}

proof fn lemma_float64()
    ensures
        ready(16, Seq::empty()),
{
    reveal_strlit("std_msgs/msg/Float64");
    reveal_strlit("float64 data\n");
    reveal_with_fuel(name_end, 10);
    reveal_with_fuel(same, 9);
    reveal_with_fuel(loadable, 3);
}

proof fn lemma_empty_message()
    ensures
        ready(17, Seq::empty()),
{
    reveal_strlit("std_msgs/msg/Empty");
    reveal_strlit("\n");
    reveal_with_fuel(name_end, 10);
    reveal_with_fuel(loadable, 3);
}

proof fn lemma_color_rgba()
    ensures
        ready(18, Seq::empty()),
{
    reveal_strlit("std_msgs/msg/ColorRGBA");
    reveal_strlit("float32 r\nfloat32 g\nfloat32 b\nfloat32 a\n");
    reveal_with_fuel(name_end, 11);
    reveal_with_fuel(same, 9);
    reveal_with_fuel(loadable, 6);
}

proof fn lemma_multi_array_dimension()
    ensures
        ready(19, Seq::empty()),
{
    reveal_strlit("std_msgs/msg/MultiArrayDimension");
    reveal_strlit("string label\nuint32 size\nuint32 stride\n");
    reveal_with_fuel(name_end, 21);
    reveal_with_fuel(same, 8);
    reveal_with_fuel(loadable, 5);
}

#[verifier::spinoff_prover]
#[verifier::rlimit(100)]
proof fn lemma_multi_array_layout()
    ensures
        ready(20, seq![19]),
{
    reveal_strlit("std_msgs/msg/MultiArrayDimension");
    reveal_strlit("std_msgs/msg/MultiArrayLayout");
    reveal_strlit("MultiArrayDimension[] dim\nuint32 data_offset\n");
    reveal_with_fuel(name_end, 21);
    reveal_with_fuel(same, 21);
    reveal_with_fuel(refers_to_one, 2);
    reveal_with_fuel(loadable, 4);
}

proof fn lemma_float64_multi_array()
    ensures
        ready(21, seq![20]),
{
    reveal_strlit("std_msgs/msg/MultiArrayLayout");
    reveal_strlit("std_msgs/msg/Float64MultiArray");
    reveal_strlit("MultiArrayLayout layout\nfloat64[] data\n");
    reveal_with_fuel(name_end, 19);
    reveal_with_fuel(same, 18);
    reveal_with_fuel(refers_to_one, 2);
    reveal_with_fuel(loadable, 4);
}

proof fn lemma_float32_multi_array()
    ensures
        ready(22, seq![20]),
{
    reveal_strlit("std_msgs/msg/MultiArrayLayout");
    reveal_strlit("std_msgs/msg/Float32MultiArray");
    reveal_strlit("MultiArrayLayout layout\nfloat32[] data\n");
    reveal_with_fuel(name_end, 19);
    reveal_with_fuel(same, 18);
    reveal_with_fuel(refers_to_one, 2);
    reveal_with_fuel(loadable, 4);
}

proof fn lemma_int32_multi_array()
    ensures
        ready(23, seq![20]),
{
    reveal_strlit("std_msgs/msg/MultiArrayLayout");
    reveal_strlit("std_msgs/msg/Int32MultiArray");
    reveal_strlit("MultiArrayLayout layout\nint32[] data\n");
    reveal_with_fuel(name_end, 18);
    reveal_with_fuel(same, 18);
    reveal_with_fuel(refers_to_one, 2);
    reveal_with_fuel(loadable, 4);
}

proof fn lemma_byte_multi_array()
    ensures
        ready(24, seq![20]),
{
    reveal_strlit("std_msgs/msg/MultiArrayLayout");
    reveal_strlit("std_msgs/msg/ByteMultiArray");
    reveal_strlit("MultiArrayLayout layout\nbyte[] data\n");
    reveal_with_fuel(name_end, 18);
    reveal_with_fuel(same, 18);
    reveal_with_fuel(refers_to_one, 2);
    reveal_with_fuel(loadable, 4);
}

proof fn lemma_vector3()
    ensures
        ready(25, Seq::empty()),
{
    reveal_strlit("geometry_msgs/msg/Vector3");
    reveal_strlit("float64 x\nfloat64 y\nfloat64 z\n");
    reveal_with_fuel(name_end, 15);
    reveal_with_fuel(same, 9);
    reveal_with_fuel(loadable, 5);
}

proof fn lemma_point()
    ensures
        ready(26, Seq::empty()),
{
    reveal_strlit("geometry_msgs/msg/Point");
    reveal_strlit("float64 x\nfloat64 y\nfloat64 z\n");
    reveal_with_fuel(name_end, 15);
    reveal_with_fuel(same, 9);
    reveal_with_fuel(loadable, 5);
}

proof fn lemma_point32()
    ensures
        ready(27, Seq::empty()),
{
    reveal_strlit("geometry_msgs/msg/Point32");
    reveal_strlit("float32 x\nfloat32 y\nfloat32 z\n");
    reveal_with_fuel(name_end, 15);
    reveal_with_fuel(same, 9);
    reveal_with_fuel(loadable, 5);
}

#[verifier::spinoff_prover]
#[verifier::rlimit(100)]
proof fn lemma_quaternion()
    ensures
        ready(28, Seq::empty()),
{
    reveal_strlit("geometry_msgs/msg/Quaternion");
    reveal_strlit("float64 x\nfloat64 y\nfloat64 z\nfloat64 w 1\n");
    reveal_with_fuel(name_end, 15);
    reveal_with_fuel(same, 9);
    reveal_with_fuel(loadable, 6);
}

proof fn lemma_pose()
    ensures
        ready(29, seq![26, 28]),
{
    reveal_strlit("geometry_msgs/msg/Point");
    reveal_strlit("geometry_msgs/msg/Quaternion");
    reveal_strlit("geometry_msgs/msg/Pose");
    reveal_strlit("Point position\nQuaternion orientation\n");
    reveal_with_fuel(name_end, 15);
    reveal_with_fuel(same, 15);
    reveal_with_fuel(refers_to_one, 3);
    reveal_with_fuel(loadable, 4);
}

proof fn lemma_pose_stamped()
    ensures
        ready(30, seq![2, 29]),
{
    reveal_strlit("std_msgs/msg/Header");
    reveal_strlit("geometry_msgs/msg/Pose");
    reveal_strlit("geometry_msgs/msg/PoseStamped");
    reveal_strlit("std_msgs/Header header\nPose pose\n");
    reveal_with_fuel(name_end, 15);
    reveal_with_fuel(same, 15);
    reveal_with_fuel(refers_to_one, 3);
    reveal_with_fuel(loadable, 4);
}

proof fn lemma_pose_with_covariance()
    ensures
        ready(31, seq![29]),
{
    reveal_strlit("geometry_msgs/msg/Pose");
    reveal_strlit("geometry_msgs/msg/PoseWithCovariance");
    reveal_strlit("Pose pose\nfloat64[36] covariance\n");
    reveal_with_fuel(name_end, 20);
    reveal_with_fuel(same, 15);
    reveal_with_fuel(refers_to_one, 2);
    reveal_with_fuel(loadable, 4);
}

#[verifier::spinoff_prover]
#[verifier::rlimit(100)]
proof fn lemma_pose_with_covariance_stamped()
    ensures
        ready(32, seq![2, 31]),
{
    reveal_strlit("std_msgs/msg/Header");
    reveal_strlit("geometry_msgs/msg/PoseWithCovariance");
    reveal_strlit("geometry_msgs/msg/PoseWithCovarianceStamped");
    reveal_strlit("std_msgs/Header header\nPoseWithCovariance pose\n");
    reveal_with_fuel(name_end, 27);
    reveal_with_fuel(same, 20);
    reveal_with_fuel(refers_to_one, 3);
    reveal_with_fuel(loadable, 4);
}

proof fn lemma_twist()
    ensures
        ready(33, seq![25]),
{
    reveal_strlit("geometry_msgs/msg/Vector3");
    reveal_strlit("geometry_msgs/msg/Twist");
    reveal_strlit("Vector3 linear\nVector3 angular\n");
    reveal_with_fuel(name_end, 15);
    reveal_with_fuel(same, 15);
    reveal_with_fuel(refers_to_one, 2);
    reveal_with_fuel(loadable, 4);
}

proof fn lemma_twist_stamped()
    ensures
        ready(34, seq![2, 33]),
{
    reveal_strlit("std_msgs/msg/Header");
    reveal_strlit("geometry_msgs/msg/Twist");
    reveal_strlit("geometry_msgs/msg/TwistStamped");
    reveal_strlit("std_msgs/Header header\nTwist twist\n");
    reveal_with_fuel(name_end, 15);
    reveal_with_fuel(same, 15);
    reveal_with_fuel(refers_to_one, 3);
    reveal_with_fuel(loadable, 4);
}

proof fn lemma_twist_with_covariance()
    ensures
        ready(35, seq![33]),
{
    reveal_strlit("geometry_msgs/msg/Twist");
    reveal_strlit("geometry_msgs/msg/TwistWithCovariance");
    reveal_strlit("Twist twist\nfloat64[36] covariance\n");
    reveal_with_fuel(name_end, 21);
    reveal_with_fuel(same, 15);
    reveal_with_fuel(refers_to_one, 2);
    reveal_with_fuel(loadable, 4);
}

proof fn lemma_accel()
    ensures
        ready(36, seq![25]),
{
    reveal_strlit("geometry_msgs/msg/Vector3");
    reveal_strlit("geometry_msgs/msg/Accel");
    reveal_strlit("Vector3 linear\nVector3 angular\n");
    reveal_with_fuel(name_end, 15);
    reveal_with_fuel(same, 15);
    reveal_with_fuel(refers_to_one, 2);
    reveal_with_fuel(loadable, 4);
}

proof fn lemma_wrench()
    ensures
        ready(37, seq![25]),
{
    reveal_strlit("geometry_msgs/msg/Vector3");
    reveal_strlit("geometry_msgs/msg/Wrench");
    reveal_strlit("Vector3 force\nVector3 torque\n");
    reveal_with_fuel(name_end, 15);
    reveal_with_fuel(same, 15);
    reveal_with_fuel(refers_to_one, 2);
    reveal_with_fuel(loadable, 4);
}

proof fn lemma_wrench_stamped()
    ensures
        ready(38, seq![2, 37]),
{
    reveal_strlit("std_msgs/msg/Header");
    reveal_strlit("geometry_msgs/msg/Wrench");
    reveal_strlit("geometry_msgs/msg/WrenchStamped");
    reveal_strlit("std_msgs/Header header\nWrench wrench\n");
    reveal_with_fuel(name_end, 15);
    reveal_with_fuel(same, 15);
    reveal_with_fuel(refers_to_one, 3);
    reveal_with_fuel(loadable, 4);
}

proof fn lemma_transform()
    ensures
        ready(39, seq![25, 28]),
{
    reveal_strlit("geometry_msgs/msg/Vector3");
    reveal_strlit("geometry_msgs/msg/Quaternion");
    reveal_strlit("geometry_msgs/msg/Transform");
    reveal_strlit("Vector3 translation\nQuaternion rotation\n");
    reveal_with_fuel(name_end, 15);
    reveal_with_fuel(same, 15);
    reveal_with_fuel(refers_to_one, 3);
    reveal_with_fuel(loadable, 4);
}

#[verifier::spinoff_prover]
#[verifier::rlimit(100)]
proof fn lemma_transform_stamped()
    ensures
        ready(40, seq![2, 39]),
{
    reveal_strlit("std_msgs/msg/Header");
    reveal_strlit("geometry_msgs/msg/Transform");
    reveal_strlit("geometry_msgs/msg/TransformStamped");
    reveal_strlit("std_msgs/Header header\nstring child_frame_id\nTransform transform\n");
    reveal_with_fuel(name_end, 18);
    reveal_with_fuel(same, 15);
    reveal_with_fuel(refers_to_one, 3);
    reveal_with_fuel(loadable, 5);
}

proof fn lemma_polygon()
    ensures
        ready(41, seq![27]),
{
    reveal_strlit("geometry_msgs/msg/Point32");
    reveal_strlit("geometry_msgs/msg/Polygon");
    reveal_strlit("Point32[] points\n");
    reveal_with_fuel(name_end, 15);
    reveal_with_fuel(same, 15);
    reveal_with_fuel(refers_to_one, 2);
    reveal_with_fuel(loadable, 3);
}

proof fn lemma_polygon_stamped()
    ensures
        ready(42, seq![2, 41]),
{
    reveal_strlit("std_msgs/msg/Header");
    reveal_strlit("geometry_msgs/msg/Polygon");
    reveal_strlit("geometry_msgs/msg/PolygonStamped");
    reveal_strlit("std_msgs/Header header\nPolygon polygon\n");
    reveal_with_fuel(name_end, 16);
    reveal_with_fuel(same, 15);
    reveal_with_fuel(refers_to_one, 3);
    reveal_with_fuel(loadable, 4);
}

proof fn lemma_point_stamped()
    ensures
        ready(43, seq![2, 26]),
{
    reveal_strlit("std_msgs/msg/Header");
    reveal_strlit("geometry_msgs/msg/Point");
    reveal_strlit("geometry_msgs/msg/PointStamped");
    reveal_strlit("std_msgs/Header header\nPoint point\n");
    reveal_with_fuel(name_end, 15);
    reveal_with_fuel(same, 15);
    reveal_with_fuel(refers_to_one, 3);
    reveal_with_fuel(loadable, 4);
}

#[verifier::spinoff_prover]
#[verifier::rlimit(100)]
proof fn lemma_compressed_image()
    ensures
        ready(44, seq![2]),
{
    reveal_strlit("std_msgs/msg/Header");
    reveal_strlit("sensor_msgs/msg/CompressedImage");
    reveal_strlit("std_msgs/Header header\nstring format\nuint8[] data\n");
    reveal_with_fuel(name_end, 17);
    reveal_with_fuel(same, 10);
    reveal_with_fuel(refers_to_one, 2);
    reveal_with_fuel(loadable, 5);
}

#[verifier::spinoff_prover]
#[verifier::rlimit(100)]
proof fn lemma_image()
    ensures
        ready(45, seq![2]),
{
    reveal_strlit("std_msgs/msg/Header");
    reveal_strlit("sensor_msgs/msg/Image");
    reveal_strlit("std_msgs/Header header\nuint32 height\nuint32 width\nstring encoding\nuint8 is_bigendian\nuint32 step\nuint8[] data\n");
    reveal_with_fuel(name_end, 14);
    reveal_with_fuel(same, 10);
    reveal_with_fuel(refers_to_one, 2);
    reveal_with_fuel(loadable, 9);
}

#[verifier::spinoff_prover]
#[verifier::rlimit(100)]
proof fn lemma_imu()
    ensures
        ready(46, seq![2, 28, 25]),
{
    reveal_strlit("std_msgs/msg/Header");
    reveal_strlit("geometry_msgs/msg/Quaternion");
    reveal_strlit("geometry_msgs/msg/Vector3");
    reveal_strlit("sensor_msgs/msg/Imu");
    reveal_strlit("std_msgs/Header header\ngeometry_msgs/Quaternion orientation\nfloat64[9] orientation_covariance\ngeometry_msgs/Vector3 angular_velocity\nfloat64[9] angular_velocity_covariance\ngeometry_msgs/Vector3 linear_acceleration\nfloat64[9] linear_acceleration_covariance\n");
    reveal_with_fuel(name_end, 32);
    reveal_with_fuel(same, 15);
    reveal_with_fuel(refers_to_one, 4);
    reveal_with_fuel(loadable, 9);
}

#[verifier::spinoff_prover]
#[verifier::rlimit(100)]
proof fn lemma_laser_scan()
    ensures
        ready(47, seq![2]),
{
    reveal_strlit("std_msgs/msg/Header");
    reveal_strlit("sensor_msgs/msg/LaserScan");
    reveal_strlit("std_msgs/Header header\nfloat32 angle_min\nfloat32 angle_max\nfloat32 angle_increment\nfloat32 time_increment\nfloat32 scan_time\nfloat32 range_min\nfloat32 range_max\nfloat32[] ranges\nfloat32[] intensities\n");
    reveal_with_fuel(name_end, 17);
    reveal_with_fuel(same, 10);
    reveal_with_fuel(refers_to_one, 2);
    reveal_with_fuel(loadable, 12);
}

#[verifier::spinoff_prover]
#[verifier::rlimit(100)]
proof fn lemma_joint_state()
    ensures
        ready(48, seq![2]),
{
    reveal_strlit("std_msgs/msg/Header");
    reveal_strlit("sensor_msgs/msg/JointState");
    reveal_strlit("std_msgs/Header header\nstring[] name\nfloat64[] position\nfloat64[] velocity\nfloat64[] effort\n");
    reveal_with_fuel(name_end, 13);
    reveal_with_fuel(same, 10);
    reveal_with_fuel(refers_to_one, 2);
    reveal_with_fuel(loadable, 7);
}

#[verifier::spinoff_prover]
#[verifier::rlimit(100)]
proof fn lemma_nav_sat_status()
    ensures
        ready(49, Seq::empty()),
{
    reveal_strlit("sensor_msgs/msg/NavSatStatus");
    reveal_strlit("int8 STATUS_NO_FIX=-1\nint8 STATUS_FIX=0\nint8 STATUS_SBAS_FIX=1\nint8 STATUS_GBAS_FIX=2\nint8 status\nuint16 SERVICE_GPS=1\nuint16 SERVICE_GLONASS=2\nuint16 SERVICE_COMPASS=4\nuint16 SERVICE_GALILEO=8\nuint16 service\n");
    reveal_with_fuel(name_end, 17);
    reveal_with_fuel(value_end, 4);
    reveal_with_fuel(same, 8);
    reveal_with_fuel(loadable, 12);
}

#[verifier::spinoff_prover]
#[verifier::rlimit(100)]
proof fn lemma_nav_sat_fix()
    ensures
        ready(50, seq![2, 49]),
{
    reveal_strlit("std_msgs/msg/Header");
    reveal_strlit("sensor_msgs/msg/NavSatStatus");
    reveal_strlit("sensor_msgs/msg/NavSatFix");
    reveal_strlit("std_msgs/Header header\nNavSatStatus status\nfloat64 latitude\nfloat64 longitude\nfloat64 altitude\nfloat64[9] position_covariance\nuint8 position_covariance_type\n");
    reveal_with_fuel(name_end, 26);
    reveal_with_fuel(same, 14);
    reveal_with_fuel(refers_to_one, 3);
    reveal_with_fuel(loadable, 9);
}

#[verifier::spinoff_prover]
#[verifier::rlimit(100)]
proof fn lemma_point_field()
    ensures
        ready(51, Seq::empty()),
{
    reveal_strlit("sensor_msgs/msg/PointField");
    reveal_strlit("uint8 INT8=1\nuint8 UINT8=2\nuint8 INT16=3\nuint8 UINT16=4\nuint8 INT32=5\nuint8 UINT32=6\nuint8 FLOAT32=7\nuint8 FLOAT64=8\nstring name\nuint32 offset\nuint8 datatype\nuint32 count\n");
    reveal_with_fuel(name_end, 13);
    reveal_with_fuel(value_end, 4);
    reveal_with_fuel(same, 8);
    reveal_with_fuel(loadable, 14);
}

#[verifier::spinoff_prover]
#[verifier::rlimit(100)]
proof fn lemma_point_cloud2()
    ensures
        ready(52, seq![2, 51]),
{
    reveal_strlit("std_msgs/msg/Header");
    reveal_strlit("sensor_msgs/msg/PointField");
    reveal_strlit("sensor_msgs/msg/PointCloud2");
    reveal_strlit("std_msgs/Header header\nuint32 height\nuint32 width\nPointField[] fields\nbool is_bigendian\nuint32 point_step\nuint32 row_step\nuint8[] data\nbool is_dense\n");
    reveal_with_fuel(name_end, 14);
    reveal_with_fuel(same, 13);
    reveal_with_fuel(refers_to_one, 3);
    reveal_with_fuel(loadable, 11);
}

#[verifier::spinoff_prover]
#[verifier::rlimit(100)]
proof fn lemma_range()
    ensures
        ready(53, seq![2]),
{
    reveal_strlit("std_msgs/msg/Header");
    reveal_strlit("sensor_msgs/msg/Range");
    reveal_strlit("std_msgs/Header header\nuint8 ULTRASOUND=0\nuint8 INFRARED=1\nuint8 radiation_type\nfloat32 field_of_view\nfloat32 min_range\nfloat32 max_range\nfloat32 range\n");
    reveal_with_fuel(name_end, 16);
    reveal_with_fuel(value_end, 4);
    reveal_with_fuel(same, 10);
    reveal_with_fuel(refers_to_one, 2);
    reveal_with_fuel(loadable, 10);
}

#[verifier::spinoff_prover]
#[verifier::rlimit(100)]
proof fn lemma_temperature()
    ensures
        ready(54, seq![2]),
{
    reveal_strlit("std_msgs/msg/Header");
    reveal_strlit("sensor_msgs/msg/Temperature");
    reveal_strlit("std_msgs/Header header\nfloat64 temperature\nfloat64 variance\n");
    reveal_with_fuel(name_end, 13);
    reveal_with_fuel(same, 10);
    reveal_with_fuel(refers_to_one, 2);
    reveal_with_fuel(loadable, 5);
}

#[verifier::spinoff_prover]
#[verifier::rlimit(100)]
proof fn lemma_battery_state()
    ensures
        ready(55, seq![2]),
{
    reveal_strlit("std_msgs/msg/Header");
    reveal_strlit("sensor_msgs/msg/BatteryState");
    reveal_strlit("std_msgs/Header header\nfloat32 voltage\nfloat32 temperature\nfloat32 current\nfloat32 charge\nfloat32 capacity\nfloat32 design_capacity\nfloat32 percentage\nuint8 power_supply_status\nuint8 power_supply_health\nuint8 power_supply_technology\nbool present\nfloat32[] cell_voltage\nfloat32[] cell_temperature\nstring location\nstring serial_number\n");
    reveal_with_fuel(name_end, 25);
    reveal_with_fuel(same, 10);
    reveal_with_fuel(refers_to_one, 2);
    reveal_with_fuel(loadable, 18);
}

#[verifier::spinoff_prover]
#[verifier::rlimit(100)]
proof fn lemma_region_of_interest()
    ensures
        ready(56, Seq::empty()),
{
    reveal_strlit("sensor_msgs/msg/RegionOfInterest");
    reveal_strlit("uint32 x_offset\nuint32 y_offset\nuint32 height\nuint32 width\nbool do_rectify\n");
    reveal_with_fuel(name_end, 18);
    reveal_with_fuel(same, 8);
    reveal_with_fuel(loadable, 7);
}

#[verifier::spinoff_prover]
#[verifier::rlimit(100)]
proof fn lemma_odometry()
    ensures
        ready(57, seq![2, 31, 35]),
{
    reveal_strlit("std_msgs/msg/Header");
    reveal_strlit("geometry_msgs/msg/PoseWithCovariance");
    reveal_strlit("geometry_msgs/msg/TwistWithCovariance");
    reveal_strlit("nav_msgs/msg/Odometry");
    reveal_strlit("std_msgs/Header header\nstring child_frame_id\ngeometry_msgs/PoseWithCovariance pose\ngeometry_msgs/TwistWithCovariance twist\n");
    reveal_with_fuel(name_end, 21);
    reveal_with_fuel(same, 21);
    reveal_with_fuel(refers_to_one, 4);
    reveal_with_fuel(loadable, 6);
}

#[verifier::spinoff_prover]
#[verifier::rlimit(100)]
proof fn lemma_path()
    ensures
        ready(58, seq![2, 30]),
{
    reveal_strlit("std_msgs/msg/Header");
    reveal_strlit("geometry_msgs/msg/PoseStamped");
    reveal_strlit("nav_msgs/msg/Path");
    reveal_strlit("std_msgs/Header header\ngeometry_msgs/PoseStamped[] poses\n");
    reveal_with_fuel(name_end, 15);
    reveal_with_fuel(same, 15);
    reveal_with_fuel(refers_to_one, 3);
    reveal_with_fuel(loadable, 4);
}

proof fn lemma_uuid()
    ensures
        ready(59, Seq::empty()),
{
    reveal_strlit("unique_identifier_msgs/msg/UUID");
    reveal_strlit("uint8[16] uuid\n");
    reveal_with_fuel(name_end, 24);
    reveal_with_fuel(same, 7);
    reveal_with_fuel(loadable, 3);
}

#[verifier::spinoff_prover]
#[verifier::rlimit(100)]
proof fn lemma_goal_info()
    ensures
        ready(60, seq![59, 0]),
{
    reveal_strlit("unique_identifier_msgs/msg/UUID");
    reveal_strlit("builtin_interfaces/msg/Time");
    reveal_strlit("action_msgs/msg/GoalInfo");
    reveal_strlit("unique_identifier_msgs/UUID goal_id\nbuiltin_interfaces/Time stamp\n");
    reveal_with_fuel(name_end, 24);
    reveal_with_fuel(same, 24);
    reveal_with_fuel(refers_to_one, 3);
    reveal_with_fuel(loadable, 4);
}

#[verifier::spinoff_prover]
#[verifier::rlimit(100)]
proof fn lemma_goal_status()
    ensures
        ready(61, seq![60]),
{
    reveal_strlit("action_msgs/msg/GoalInfo");
    reveal_strlit("action_msgs/msg/GoalStatus");
    reveal_strlit("int8 STATUS_UNKNOWN=0\nint8 STATUS_ACCEPTED=1\nint8 STATUS_EXECUTING=2\nint8 STATUS_CANCELING=3\nint8 STATUS_SUCCEEDED=4\nint8 STATUS_CANCELED=5\nint8 STATUS_ABORTED=6\nGoalInfo goal_info\nint8 status\n");
    reveal_with_fuel(name_end, 18);
    reveal_with_fuel(value_end, 4);
    reveal_with_fuel(same, 13);
    reveal_with_fuel(refers_to_one, 2);
    reveal_with_fuel(loadable, 11);
}

proof fn lemma_goal_status_array()
    ensures
        ready(62, seq![61]),
{
    reveal_strlit("action_msgs/msg/GoalStatus");
    reveal_strlit("action_msgs/msg/GoalStatusArray");
    reveal_strlit("GoalStatus[] status_list\n");
    reveal_with_fuel(name_end, 17);
    reveal_with_fuel(same, 13);
    reveal_with_fuel(refers_to_one, 2);
    reveal_with_fuel(loadable, 3);
}

proof fn lemma_key_value()
    ensures
        ready(63, Seq::empty()),
{
    reveal_strlit("diagnostic_msgs/msg/KeyValue");
    reveal_strlit("string key\nstring value\n");
    reveal_with_fuel(name_end, 17);
    reveal_with_fuel(same, 8);
    reveal_with_fuel(loadable, 4);
}

#[verifier::spinoff_prover]
#[verifier::rlimit(100)]
proof fn lemma_diagnostic_status()
    ensures
        ready(64, seq![63]),
{
    reveal_strlit("diagnostic_msgs/msg/KeyValue");
    reveal_strlit("diagnostic_msgs/msg/DiagnosticStatus");
    reveal_strlit("byte OK=0\nbyte WARN=1\nbyte ERROR=2\nbyte STALE=3\nbyte level\nstring name\nstring message\nstring hardware_id\nKeyValue[] values\n");
    reveal_with_fuel(name_end, 18);
    reveal_with_fuel(value_end, 4);
    reveal_with_fuel(same, 17);
    reveal_with_fuel(refers_to_one, 2);
    reveal_with_fuel(loadable, 11);
}

#[verifier::spinoff_prover]
#[verifier::rlimit(100)]
proof fn lemma_diagnostic_array()
    ensures
        ready(65, seq![2, 64]),
{
    reveal_strlit("std_msgs/msg/Header");
    reveal_strlit("diagnostic_msgs/msg/DiagnosticStatus");
    reveal_strlit("diagnostic_msgs/msg/DiagnosticArray");
    reveal_strlit("std_msgs/Header header\nDiagnosticStatus[] status\n");
    reveal_with_fuel(name_end, 18);
    reveal_with_fuel(same, 18);
    reveal_with_fuel(refers_to_one, 3);
    reveal_with_fuel(loadable, 4);
}

proof fn lemma_clock()
    ensures
        ready(66, seq![0]),
{
    reveal_strlit("builtin_interfaces/msg/Time");
    reveal_strlit("rosgraph_msgs/msg/Clock");
    reveal_strlit("builtin_interfaces/Time clock\n");
    reveal_with_fuel(name_end, 20);
    reveal_with_fuel(same, 20);
    reveal_with_fuel(refers_to_one, 2);
    reveal_with_fuel(loadable, 3);
}

/// Every bundled message is ready.
pub proof fn bundled_message_is_ready(n: int) -> (refs: Seq<int>)
    requires
        0 <= n < MESSAGES@.len(),
    ensures
        ready(n, refs),
{
    if n == 0 {
        lemma_time();
        Seq::empty()
    } else if n == 1 {
        lemma_duration();
        Seq::empty()
    } else if n == 2 {
        lemma_header();
        seq![0]
    } else if n == 3 {
        lemma_string();
        Seq::empty()
    } else if n == 4 {
        lemma_bool();
        Seq::empty()
    } else if n == 5 {
        lemma_char();
        Seq::empty()
    } else if n == 6 {
        lemma_byte();
        Seq::empty()
    } else if n == 7 {
        lemma_int8();
        Seq::empty()
    } else if n == 8 {
        lemma_int16();
        Seq::empty()
    } else if n == 9 {
        lemma_int32();
        Seq::empty()
    } else if n == 10 {
        lemma_int64();
        Seq::empty()
    } else if n == 11 {
        lemma_u_int8();
        Seq::empty()
    } else if n == 12 {
        lemma_u_int16();
        Seq::empty()
    } else if n == 13 {
        lemma_u_int32();
        Seq::empty()
    } else if n == 14 {
        lemma_u_int64();
        Seq::empty()
    } else if n == 15 {
        lemma_float32();
        Seq::empty()
    } else if n == 16 {
        lemma_float64();
        Seq::empty()
    } else if n == 17 {
        lemma_empty_message();
        Seq::empty()
    } else if n == 18 {
        lemma_color_rgba();
        Seq::empty()
    } else if n == 19 {
        lemma_multi_array_dimension();
        Seq::empty()
    } else if n == 20 {
        lemma_multi_array_layout();
        seq![19]
    } else if n == 21 {
        lemma_float64_multi_array();
        seq![20]
    } else if n == 22 {
        lemma_float32_multi_array();
        seq![20]
    } else if n == 23 {
        lemma_int32_multi_array();
        seq![20]
    } else if n == 24 {
        lemma_byte_multi_array();
        seq![20]
    } else if n == 25 {
        lemma_vector3();
        Seq::empty()
    } else if n == 26 {
        lemma_point();
        Seq::empty()
    } else if n == 27 {
        lemma_point32();
        Seq::empty()
    } else if n == 28 {
        lemma_quaternion();
        Seq::empty()
    } else if n == 29 {
        lemma_pose();
        seq![26, 28]
    } else if n == 30 {
        lemma_pose_stamped();
        seq![2, 29]
    } else if n == 31 {
        lemma_pose_with_covariance();
        seq![29]
    } else if n == 32 {
        lemma_pose_with_covariance_stamped();
        seq![2, 31]
    } else if n == 33 {
        lemma_twist();
        seq![25]
    } else if n == 34 {
        lemma_twist_stamped();
        seq![2, 33]
    } else if n == 35 {
        lemma_twist_with_covariance();
        seq![33]
    } else if n == 36 {
        lemma_accel();
        seq![25]
    } else if n == 37 {
        lemma_wrench();
        seq![25]
    } else if n == 38 {
        lemma_wrench_stamped();
        seq![2, 37]
    } else if n == 39 {
        lemma_transform();
        seq![25, 28]
    } else if n == 40 {
        lemma_transform_stamped();
        seq![2, 39]
    } else if n == 41 {
        lemma_polygon();
        seq![27]
    } else if n == 42 {
        lemma_polygon_stamped();
        seq![2, 41]
    } else if n == 43 {
        lemma_point_stamped();
        seq![2, 26]
    } else if n == 44 {
        lemma_compressed_image();
        seq![2]
    } else if n == 45 {
        lemma_image();
        seq![2]
    } else if n == 46 {
        lemma_imu();
        seq![2, 28, 25]
    } else if n == 47 {
        lemma_laser_scan();
        seq![2]
    } else if n == 48 {
        lemma_joint_state();
        seq![2]
    } else if n == 49 {
        lemma_nav_sat_status();
        Seq::empty()
    } else if n == 50 {
        lemma_nav_sat_fix();
        seq![2, 49]
    } else if n == 51 {
        lemma_point_field();
        Seq::empty()
    } else if n == 52 {
        lemma_point_cloud2();
        seq![2, 51]
    } else if n == 53 {
        lemma_range();
        seq![2]
    } else if n == 54 {
        lemma_temperature();
        seq![2]
    } else if n == 55 {
        lemma_battery_state();
        seq![2]
    } else if n == 56 {
        lemma_region_of_interest();
        Seq::empty()
    } else if n == 57 {
        lemma_odometry();
        seq![2, 31, 35]
    } else if n == 58 {
        lemma_path();
        seq![2, 30]
    } else if n == 59 {
        lemma_uuid();
        Seq::empty()
    } else if n == 60 {
        lemma_goal_info();
        seq![59, 0]
    } else if n == 61 {
        lemma_goal_status();
        seq![60]
    } else if n == 62 {
        lemma_goal_status_array();
        seq![61]
    } else if n == 63 {
        lemma_key_value();
        Seq::empty()
    } else if n == 64 {
        lemma_diagnostic_status();
        seq![63]
    } else if n == 65 {
        lemma_diagnostic_array();
        seq![2, 64]
    } else {
        lemma_clock();
        seq![0]
    }
}

} // verus!
