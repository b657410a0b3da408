//! Configuration records of the robot.

use vstd::prelude::*;

verus! {

/// A camera named in the robot's configuration.
pub struct CameraDefinition {
    pub name: String,
}

impl CameraDefinition {
    pub fn new(name: String) -> (c: CameraDefinition)
        ensures
            c.name@ == name@,
    {
        CameraDefinition { name }
    }
}

} // verus!
