//! Camera abstraction: the data every backend shares, the PTP-IP layer, and the protocol
//! decisions of each vendor backend.

pub mod canon;
pub mod error;
pub mod histogram;
pub mod mock;
pub mod model;
pub mod nikon;
pub mod patience;
pub mod ptpip;
pub mod sony;

use vstd::prelude::*;

use model::{Vendor, VendorProfile};

verus! {

/// How many profiles in `profiles` describe `vendor`.
pub open spec fn vendor_count(profiles: Seq<VendorProfile>, vendor: Vendor) -> nat
    decreases profiles.len(),
{
    if profiles.len() == 0 {
        0
    } else {
        vendor_count(profiles.drop_last(), vendor) + (if profiles.last().vendor == vendor {
            1nat
        } else {
            0nat
        })
    }
}

/// What the connect screen needs of a profile: a label and a summary to show, and a port
/// wherever an address has to be given.
pub open spec fn filled_in(p: VendorProfile) -> bool {
    &&& p.label@.len() > 0
    &&& p.summary@.len() > 0
    &&& p.needs_address ==> p.default_port > 0
}

/// Every vendor the app knows about. The connect screen is built from this list, so each
/// vendor appears in it exactly once and every entry is filled in.
pub fn vendors() -> (r: Vec<VendorProfile>)
    ensures
        r@.len() == 4,
        r@[0].vendor == Vendor::Canon,
        r@[1].vendor == Vendor::Nikon,
        r@[2].vendor == Vendor::Sony,
        r@[3].vendor == Vendor::Mock,
        canon::is_profile(r@[0]),
        nikon::is_profile(r@[1]),
        sony::is_profile(r@[2]),
        mock::is_profile(r@[3]),
        forall|v: Vendor| #[trigger] vendor_count(r@, v) == 1,
        forall|i: int| 0 <= i < r@.len() ==> #[trigger] filled_in(r@[i]),
{
    let r = vec![canon::profile(), nikon::profile(), sony::profile(), mock::profile()];
    proof {
        reveal_strlit("Canon");
        reveal_strlit("Nikon");
        reveal_strlit("Sony");
        reveal_strlit("Simulator");
        reveal_strlit("CCAPI over HTTP - unlock per body, then read the address off the camera");
        reveal_strlit("PTP-IP - use 'Connect to smart device' and join the camera's network");
        reveal_strlit("PTP-IP - use 'PC Remote Function' with Wi-Fi Direct");
        reveal_strlit("Fake camera running in-process");
        reveal_with_fuel(vendor_count, 5);
        assert forall|v: Vendor| #[trigger] vendor_count(r@, v) == 1 by {
            assert(r@.drop_last().drop_last().drop_last().drop_last() =~= Seq::<
                VendorProfile,
            >::empty());
        }
        assert forall|i: int| 0 <= i < r@.len() implies #[trigger] filled_in(r@[i]) by {}
    }
    r
}

} // verus!
