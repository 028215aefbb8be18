use vstd::prelude::*;

verus! {

/// The form fields of a request to the suburb-data service for suburb `suburb_code`.
pub fn get_form_data<'a>(suburb_code: &'a str) -> (r: Vec<(&'a str, &'a str)>)
    ensures
        r@.len() == 8,
        r@[0].0@ == "Local_Language"@ && r@[0].1@ == "ZHS"@,
        r@[1].0@ == "Local_Country"@ && r@[1].1@ == "AUS"@,
        r@[2].0@ == "Local_State"@ && r@[2].1@ == "NSW"@,
        r@[3].0@ == "Local_Suburb"@ && r@[3].1@ == suburb_code@,
        r@[4].0@ == "Menu_Lv1"@ && r@[4].1@ == "Utilities"@,
        r@[5].0@ == "Menu_Lv2"@ && r@[5].1@ == "Electricity Line"@,
        r@[6].0@ == "CurrentLocation_Lat"@ && r@[6].1@ == ""@,
        r@[7].0@ == "CurrentLocation_Lon"@ && r@[7].1@ == ""@,
{
    let mut r: Vec<(&'a str, &'a str)> = Vec::new();
    r.push(("Local_Language", "ZHS"));
    r.push(("Local_Country", "AUS"));
    r.push(("Local_State", "NSW"));
    r.push(("Local_Suburb", suburb_code));
    r.push(("Menu_Lv1", "Utilities"));
    r.push(("Menu_Lv2", "Electricity Line"));
    r.push(("CurrentLocation_Lat", ""));
    r.push(("CurrentLocation_Lon", ""));
    r
}

} // verus!
