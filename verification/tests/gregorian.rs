use hifitime::gregorian::{
    cumulative_days_for_month, is_gregorian_valid, is_leap_year, january_years, july_years,
    usual_days_per_month,
};

const LEAP_YEARS: [i32; 146] = [
    1804, 1808, 1812, 1816, 1820, 1824, 1828, 1832, 1836, 1840, 1844, 1848, 1852, 1856, 1860,
    1864, 1868, 1872, 1876, 1880, 1884, 1888, 1892, 1896, 1904, 1908, 1912, 1916, 1920, 1924,
    1928, 1932, 1936, 1940, 1944, 1948, 1952, 1956, 1960, 1964, 1968, 1972, 1976, 1980, 1984,
    1988, 1992, 1996, 2000, 2004, 2008, 2012, 2016, 2020, 2024, 2028, 2032, 2036, 2040, 2044,
    2048, 2052, 2056, 2060, 2064, 2068, 2072, 2076, 2080, 2084, 2088, 2092, 2096, 2104, 2108,
    2112, 2116, 2120, 2124, 2128, 2132, 2136, 2140, 2144, 2148, 2152, 2156, 2160, 2164, 2168,
    2172, 2176, 2180, 2184, 2188, 2192, 2196, 2204, 2208, 2212, 2216, 2220, 2224, 2228, 2232,
    2236, 2240, 2244, 2248, 2252, 2256, 2260, 2264, 2268, 2272, 2276, 2280, 2284, 2288, 2292,
    2296, 2304, 2308, 2312, 2316, 2320, 2324, 2328, 2332, 2336, 2340, 2344, 2348, 2352, 2356,
    2360, 2364, 2368, 2372, 2376, 2380, 2384, 2388, 2392, 2396, 2400,
];

#[test]
fn gregorian_cumulative_days_for_month() {
    assert_eq!(
        cumulative_days_for_month(false),
        [0, 31, 59, 90, 120, 151, 181, 212, 243, 273, 304, 334]
    )
}

#[test]
fn gregorian_leap_year() {
    assert!(!is_leap_year(2019));
    assert!(!is_leap_year(2001));
    assert!(!is_leap_year(1000));
    for year in LEAP_YEARS.iter() {
        assert!(is_leap_year(*year));
    }
}

#[test]
fn epoch_cumulative_days_for_month() {
    assert_eq!(
        cumulative_days_for_month(false),
        [0, 31, 59, 90, 120, 151, 181, 212, 243, 273, 304, 334]
    )
}

#[test]
fn epoch_leap_year() {
    assert!(!is_leap_year(2019));
    assert!(!is_leap_year(2001));
    assert!(!is_leap_year(1000));
    for year in LEAP_YEARS.iter() {
        assert!(is_leap_year(*year));
    }
}

#[test]
fn cumulative_days_for_month_in_leap_years() {
    assert_eq!(
        cumulative_days_for_month(true),
        [0, 31, 60, 91, 121, 152, 182, 213, 244, 274, 305, 335]
    )
}

#[test]
fn leap_second_years() {
    assert!(january_years(1972));
    assert!(january_years(2017));
    assert!(!january_years(2018));
    assert!(july_years(2015));
    assert!(!july_years(2016));
}

#[test]
fn usual_days_of_months() {
    assert_eq!(usual_days_per_month(1), 31);
    assert_eq!(usual_days_per_month(2), 28);
    assert_eq!(usual_days_per_month(4), 30);
    assert_eq!(usual_days_per_month(0), 0);
    assert_eq!(usual_days_per_month(13), 0);
}

#[test]
fn gregorian_validity() {
    assert!(is_gregorian_valid(2000, 2, 29, 0, 0, 0, 0));
    assert!(!is_gregorian_valid(2001, 2, 29, 0, 0, 0, 0));
    assert!(!is_gregorian_valid(1900, 2, 29, 0, 0, 0, 0));
    // The last minute of 2016 had a leap second, not that of 2015.
    assert!(is_gregorian_valid(2016, 12, 31, 23, 59, 60, 0));
    assert!(!is_gregorian_valid(2015, 12, 31, 23, 59, 60, 0));
    // The last minute of June 2015 had a leap second.
    assert!(is_gregorian_valid(2015, 6, 30, 23, 59, 60, 0));
    assert!(!is_gregorian_valid(2015, 6, 30, 23, 58, 60, 0));
    assert!(!is_gregorian_valid(2015, 13, 1, 0, 0, 0, 0));
    assert!(!is_gregorian_valid(2015, 0, 1, 0, 0, 0, 0));
    assert!(!is_gregorian_valid(2015, 4, 31, 0, 0, 0, 0));
    assert!(!is_gregorian_valid(2017, 12, 25, 24, 30, 0, 0));
    assert!(!is_gregorian_valid(2017, 12, 25, 23, 0, 0, 1_000_000_000));
    assert!(!is_gregorian_valid(2000, 2, 30, 0, 0, 0, 0));
    assert!(!is_gregorian_valid(2000, 2, 31, 0, 0, 0, 0));
    assert!(is_gregorian_valid(2017, 12, 25, 23, 59, 59, 999_999_999));
    assert!(!is_gregorian_valid(2015, 4, 30, 25, 0, 0, 0));
    assert!(!is_gregorian_valid(2015, 4, 30, 0, 0, 0, 1_000_000_001));
}

#[test]
fn leap_years_repeat_every_400_years() {
    for y in [-2000, -401, -1, 0, 1, 1600, 1899, 1900, 2000, 2023] {
        assert_eq!(is_leap_year(y + 400), is_leap_year(y));
        assert_eq!((y..y + 400).filter(|v| is_leap_year(*v)).count(), 97);
    }
    assert!(!is_leap_year(1900));
    assert!(is_leap_year(2000));
}
