use spektrafilm::spectral::{CMF_X, CMF_Y, CMF_Z, N_WAVELENGTHS};

#[test]
fn test_cmf_y_peak() {
    let peak = CMF_Y
        .iter()
        .enumerate()
        .max_by_key(|(_, v)| **v)
        .map(|(i, _)| i)
        .unwrap();
    assert_eq!(peak, 35);
}

#[test]
fn test_wavelength_count() {
    assert_eq!(CMF_X.len(), N_WAVELENGTHS);
    assert_eq!(CMF_Y.len(), N_WAVELENGTHS);
    assert_eq!(CMF_Z.len(), N_WAVELENGTHS);
}
