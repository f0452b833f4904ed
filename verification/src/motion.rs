//! The joint-space motion that trajectory linking produces.

use vstd::prelude::*;
use vstd::string::StringExecFns;

verus! {

/// Time-ordered joint-space output: one `(timestamp, configuration)` entry
/// per input waypoint, with joint values ordered as the model's joint list.
pub struct Motion {
    pub robot_name: String,
    pub joint_names: Vec<String>,
    pub data: Vec<(i64, Vec<i64>)>,
}

impl Motion {
    /// Header row of the tabular output: `time`, then one
    /// `<robot_name>-<joint_name>` column per joint, in model order.
    pub fn header_row(&self) -> (r: Vec<String>)
        ensures
            r@.len() == self.joint_names@.len() + 1,
            r@[0]@ == "time"@,
            forall|i: int|
                1 <= i < r@.len() ==> (#[trigger] r@[i])@ == self.robot_name@ + "-"@
                    + self.joint_names@[i - 1]@,
    {
        let mut r: Vec<String> = Vec::new();
        r.push("time".to_owned());
        let mut i: usize = 0;
        while i < self.joint_names.len()
            invariant
                i <= self.joint_names@.len(),
                r@.len() == i + 1,
                r@[0]@ == "time"@,
                forall|k: int|
                    1 <= k < r@.len() ==> (#[trigger] r@[k])@ == self.robot_name@ + "-"@
                        + self.joint_names@[k - 1]@,
            decreases self.joint_names@.len() - i,
        {
            let name = self.robot_name.clone().concat("-").concat(self.joint_names[i].as_str());
            r.push(name);
            i += 1;
        }
        r
    }
}

} // verus!
