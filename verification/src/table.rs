//! Column-name resolution for tabular import and export.
//!
//! A table adapter addresses coordinate, intensity and colour columns by
//! name; callers may override any of the defaults.

use vstd::prelude::*;

verus! {

/// The column names a tabular adapter reads or writes: the three coordinate
/// columns are mandatory, intensity and the colour channels optional.
pub struct TableColumnNames {
    /// Name of the x-coordinate column.
    pub x: String,
    /// Name of the y-coordinate column.
    pub y: String,
    /// Name of the z-coordinate column.
    pub z: String,
    /// Name of the intensity column, when one is read or written.
    pub intensity: Option<String>,
    /// Name of the red channel column, when colour is read or written.
    pub rgb_r: Option<String>,
    /// Name of the green channel column, when colour is read or written.
    pub rgb_g: Option<String>,
    /// Name of the blue channel column, when colour is read or written.
    pub rgb_b: Option<String>,
}

/// The default column names: `x`, `y`, `z`, `intensity`, `r`, `g`, `b`.
impl Default for TableColumnNames {
    fn default() -> (r: Self)
        ensures
            r.x@ == "x"@,
            r.y@ == "y"@,
            r.z@ == "z"@,
            r.intensity matches Some(s) && s@ == "intensity"@,
            r.rgb_r matches Some(s) && s@ == "r"@,
            r.rgb_g matches Some(s) && s@ == "g"@,
            r.rgb_b matches Some(s) && s@ == "b"@,
    {
        TableColumnNames {
            x: "x".to_string(),
            y: "y".to_string(),
            z: "z".to_string(),
            intensity: Some("intensity".to_string()),
            rgb_r: Some("r".to_string()),
            rgb_g: Some("g".to_string()),
            rgb_b: Some("b".to_string()),
        }
    }
}

impl TableColumnNames {
    /// Builds column names from per-column overrides: a `None` keeps the
    /// default for that column.
    pub fn resolve(
        x: Option<String>,
        y: Option<String>,
        z: Option<String>,
        intensity: Option<String>,
        rgb_r: Option<String>,
        rgb_g: Option<String>,
        rgb_b: Option<String>,
    ) -> (r: Self)
        ensures
            (x matches Some(s) ==> r.x == s) && (x is None ==> r.x@ == "x"@),
            (y matches Some(s) ==> r.y == s) && (y is None ==> r.y@ == "y"@),
            (z matches Some(s) ==> r.z == s) && (z is None ==> r.z@ == "z"@),
            (intensity is Some ==> r.intensity == intensity) && (intensity is None ==> (
            r.intensity matches Some(s) && s@ == "intensity"@)),
            (rgb_r is Some ==> r.rgb_r == rgb_r) && (rgb_r is None ==> (r.rgb_r matches Some(s)
                && s@ == "r"@)),
            (rgb_g is Some ==> r.rgb_g == rgb_g) && (rgb_g is None ==> (r.rgb_g matches Some(s)
                && s@ == "g"@)),
            (rgb_b is Some ==> r.rgb_b == rgb_b) && (rgb_b is None ==> (r.rgb_b matches Some(s)
                && s@ == "b"@)),
    {
        let mut cols = TableColumnNames::default();
        match x {
            Some(v) => {
                cols.x = v;
            },
            None => (),
        }
        match y {
            Some(v) => {
                cols.y = v;
            },
            None => (),
        }
        match z {
            Some(v) => {
                cols.z = v;
            },
            None => (),
        }
        if intensity.is_some() {
            cols.intensity = intensity;
        }
        if rgb_r.is_some() {
            cols.rgb_r = rgb_r;
        }
        if rgb_g.is_some() {
            cols.rgb_g = rgb_g;
        }
        if rgb_b.is_some() {
            cols.rgb_b = rgb_b;
        }
        cols
    }
}

} // verus!
