use vstd::prelude::*;

use crate::fixed::SCALE;

verus! {

/// Port served when none is configured.
pub const DEFAULT_PORT: u16 = 8080;

/// Settings of the service.
#[derive(Clone, Debug)]
pub struct AppConfig {
    pub port: u16,
    pub mongodb_uri: Option<String>,
    pub mongodb_db: String,
    pub aws_region: Option<String>,
    pub s3_bucket_name: Option<String>,
    pub cdn_url: String,
}

impl AppConfig {
    /// The settings from the values found, with the defaults for those that
    /// are absent: port 8080, database `ArchisketchDB` and the development
    /// asset host.
    pub fn from_values(
        port: Option<u16>,
        mongodb_uri: Option<String>,
        mongodb_db: Option<String>,
        aws_region: Option<String>,
        s3_bucket_name: Option<String>,
        cdn_url: Option<String>,
    ) -> (r: AppConfig)
        ensures
            r.port == (match port {
                Some(p) => p,
                None => DEFAULT_PORT,
            }),
            r.mongodb_uri == mongodb_uri,
            r.mongodb_db@ == (match mongodb_db {
                Some(d) => d@,
                None => "ArchisketchDB"@,
            }),
            r.aws_region == aws_region,
            r.s3_bucket_name == s3_bucket_name,
            r.cdn_url@ == (match cdn_url {
                Some(u) => u@,
                None => "https://dev-resources.archisketch.com"@,
            }),
    {
        AppConfig {
            port: match port {
                Some(p) => p,
                None => DEFAULT_PORT,
            },
            mongodb_uri,
            mongodb_db: match mongodb_db {
                Some(d) => d,
                None => "ArchisketchDB".to_owned(),
            },
            aws_region,
            s3_bucket_name,
            cdn_url: match cdn_url {
                Some(u) => u,
                None => "https://dev-resources.archisketch.com".to_owned(),
            },
        }
    }
}

/// An area window requested by a caller, in whole square metres.
#[derive(Clone, Copy, Debug, Default, PartialEq, Eq, Structural)]
pub struct AreaRangeQuery {
    pub area_from: Option<i32>,
    pub area_to: Option<i32>,
}

/// A bound in whole square metres, in a unit that holds `per_unit` of it.
pub open spec fn scaled_bound(v: Option<i32>, per_unit: int) -> Option<i128> {
    match v {
        Some(x) => Some((x * per_unit) as i128),
        None => None,
    }
}

fn scale_bound(v: Option<i32>, per_unit: i128) -> (r: Option<i128>)
    requires
        0 <= per_unit <= SCALE * SCALE,
    ensures
        r == scaled_bound(v, per_unit as int),
{
    match v {
        Some(x) => {
            proof {
                assert(-2_147_483_648 * 1_000_000_000_000 <= x * per_unit <= 2_147_483_647 * 1_000_000_000_000)
                    by (nonlinear_arith)
                    requires
                        -2_147_483_648 <= x <= 2_147_483_647,
                        0 <= per_unit <= 1_000_000_000_000,
                ;
            }
            Some((x as i128) * per_unit)
        },
        None => None,
    }
}

impl AreaRangeQuery {
    /// The window for floors, in the fixed-point unit of plan areas.
    pub fn floor_window(&self) -> (r: (Option<i128>, Option<i128>))
        ensures
            r.0 == scaled_bound(self.area_from, SCALE as int),
            r.1 == scaled_bound(self.area_to, SCALE as int),
    {
        (scale_bound(self.area_from, SCALE as i128), scale_bound(self.area_to, SCALE as i128))
    }

    /// The window for rooms, whose areas are in square millimetres: one
    /// square metre is a million of them, each held in fixed point.
    pub fn room_window(&self) -> (r: (Option<i128>, Option<i128>))
        ensures
            r.0 == scaled_bound(self.area_from, SCALE * SCALE),
            r.1 == scaled_bound(self.area_to, SCALE * SCALE),
    {
        let per_unit: i128 = (SCALE as i128) * (SCALE as i128);
        (scale_bound(self.area_from, per_unit), scale_bound(self.area_to, per_unit))
    }
}

} // verus!
