//! The tracker's configuration: storage location, timeline palette, and the
//! overlap policy.

use vstd::prelude::*;

use crate::timeline::Rgb;

verus! {

/// Configuration of the tracker.
pub struct RtwConfig {
    /// Directory holding the two activity documents.
    pub storage_dir_path: String,
    /// The timeline palette, one entry per color.
    pub timeline_colors: Vec<Rgb>,
    /// Whether overlapping finished activities are refused (the default).
    pub deny_overlapping: bool,
}

impl RtwConfig {
    /// The default configuration over the given storage directory: the
    /// four-color default palette, overlapping denied.
    pub fn new(storage_dir_path: String) -> (r: RtwConfig)
        ensures
            r.storage_dir_path == storage_dir_path,
            r.deny_overlapping,
            r.timeline_colors@ == seq![
                (183u8, 28u8, 28u8),
                (26u8, 35u8, 126u8),
                (0u8, 77u8, 64u8),
                (38u8, 50u8, 56u8),
            ],
    {
        let mut timeline_colors: Vec<Rgb> = Vec::new();
        timeline_colors.push((183, 28, 28));
        timeline_colors.push((26, 35, 126));
        timeline_colors.push((0, 77, 64));
        timeline_colors.push((38, 50, 56));
        proof {
            assert(timeline_colors@ =~= seq![
                (183u8, 28u8, 28u8),
                (26u8, 35u8, 126u8),
                (0u8, 77u8, 64u8),
                (38u8, 50u8, 56u8),
            ]);
        }
        RtwConfig { storage_dir_path, timeline_colors, deny_overlapping: true }
    }

    /// The same configuration with the overlap policy replaced.
    pub fn deny_overlapping(self, deny: bool) -> (r: RtwConfig)
        ensures
            r.storage_dir_path == self.storage_dir_path,
            r.timeline_colors@ == self.timeline_colors@,
            r.deny_overlapping == deny,
    {
        RtwConfig {
            storage_dir_path: self.storage_dir_path,
            timeline_colors: self.timeline_colors,
            deny_overlapping: deny,
        }
    }
}

} // verus!
