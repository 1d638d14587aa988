use gem::validation::{CertificateMap, CertificateMatch, StoreError, TOFUVerifier, VerifyError};

const CERT_A: [u8; 789] = [
    0x30, 0x82, 0x03, 0x11, 0x30, 0x82, 0x01, 0xf9, 0xa0, 0x03, 0x02, 0x01, 0x02, 0x02, 0x14, 0x4c,
    0x0b, 0xa3, 0xbf, 0x5e, 0x2a, 0x12, 0x7a, 0x6d, 0x3a, 0x8d, 0x24, 0xe2, 0x3d, 0xfd, 0xcd, 0x0c,
    0xac, 0x13, 0x7d, 0x30, 0x0d, 0x06, 0x09, 0x2a, 0x86, 0x48, 0x86, 0xf7, 0x0d, 0x01, 0x01, 0x0b,
    0x05, 0x00, 0x30, 0x18, 0x31, 0x16, 0x30, 0x14, 0x06, 0x03, 0x55, 0x04, 0x03, 0x0c, 0x0d, 0x61,
    0x2e, 0x65, 0x78, 0x61, 0x6d, 0x70, 0x6c, 0x65, 0x2e, 0x6f, 0x72, 0x67, 0x30, 0x1e, 0x17, 0x0d,
    0x32, 0x36, 0x31, 0x31, 0x31, 0x39, 0x31, 0x36, 0x30, 0x36, 0x35, 0x34, 0x5a, 0x17, 0x0d, 0x34,
    0x36, 0x30, 0x31, 0x31, 0x38, 0x31, 0x36, 0x30, 0x36, 0x35, 0x34, 0x5a, 0x30, 0x18, 0x31, 0x16,
    0x30, 0x14, 0x06, 0x03, 0x55, 0x04, 0x03, 0x0c, 0x0d, 0x61, 0x2e, 0x65, 0x78, 0x61, 0x6d, 0x70,
    0x6c, 0x65, 0x2e, 0x6f, 0x72, 0x67, 0x30, 0x82, 0x01, 0x22, 0x30, 0x0d, 0x06, 0x09, 0x2a, 0x86,
    0x48, 0x86, 0xf7, 0x0d, 0x01, 0x01, 0x01, 0x05, 0x00, 0x03, 0x82, 0x01, 0x0f, 0x00, 0x30, 0x82,
    0x01, 0x0a, 0x02, 0x82, 0x01, 0x01, 0x00, 0xc2, 0x93, 0x04, 0xe5, 0x63, 0x47, 0x0b, 0x8f, 0x9d,
    0xe3, 0x5d, 0x7e, 0xf6, 0x3a, 0x14, 0xb3, 0xe3, 0xfd, 0xed, 0xd3, 0xbe, 0x6a, 0x2b, 0xd2, 0xba,
    0xd5, 0xda, 0x65, 0xce, 0x5c, 0x49, 0xfb, 0xea, 0x33, 0xed, 0x43, 0xb4, 0xa2, 0xe0, 0xf0, 0x2e,
    0x10, 0x33, 0x2f, 0x09, 0x81, 0x71, 0x67, 0xb7, 0x3e, 0x24, 0x33, 0xea, 0x32, 0x00, 0xc4, 0xbe,
    0x27, 0xe6, 0xbe, 0xf8, 0x6a, 0x43, 0x2e, 0x37, 0xd6, 0x42, 0xa1, 0x2e, 0x7e, 0x36, 0x75, 0xc6,
    0x7b, 0xeb, 0xba, 0x06, 0x29, 0xb2, 0x14, 0xbb, 0x88, 0x5e, 0x74, 0x6f, 0x0d, 0xda, 0xf3, 0x46,
    0x4b, 0xfc, 0x3b, 0x29, 0x9b, 0xd5, 0xfa, 0xff, 0xe2, 0x94, 0x0e, 0x9f, 0x7f, 0xfc, 0x53, 0x4d,
    0xa5, 0xa0, 0x36, 0x79, 0xc5, 0x61, 0x1a, 0x22, 0x9c, 0x2e, 0x16, 0xc6, 0x3a, 0x31, 0x33, 0x82,
    0xd0, 0x6b, 0x70, 0x41, 0xb3, 0x9d, 0x77, 0x9f, 0x20, 0x88, 0x85, 0xe3, 0x57, 0x03, 0x6b, 0x79,
    0x48, 0x9d, 0x42, 0xd0, 0xca, 0x59, 0x49, 0x26, 0x50, 0xce, 0xc8, 0xee, 0x36, 0x6a, 0x04, 0x2e,
    0x44, 0x8b, 0xda, 0x62, 0x5c, 0xd7, 0xcf, 0x03, 0x03, 0x9c, 0x58, 0x94, 0xfa, 0xf4, 0x92, 0xdf,
    0x88, 0x37, 0x32, 0xdd, 0x00, 0x70, 0x63, 0xb2, 0xd8, 0x07, 0x51, 0x60, 0x7d, 0x0b, 0x44, 0xca,
    0xce, 0x8d, 0x7e, 0x2c, 0xbd, 0xf9, 0x91, 0xc5, 0x66, 0xa3, 0xbe, 0xb7, 0xfd, 0xb3, 0x58, 0x8c,
    0x47, 0x01, 0x76, 0x2d, 0xc8, 0x78, 0x7f, 0x04, 0xcc, 0xf2, 0x9c, 0x62, 0x46, 0x34, 0xff, 0x8b,
    0xa2, 0x2b, 0x75, 0x60, 0xaa, 0x56, 0x20, 0x14, 0x7a, 0x82, 0x23, 0x24, 0x38, 0xab, 0x50, 0xd6,
    0x70, 0xd5, 0x2f, 0x3d, 0xa7, 0x74, 0x8b, 0x8d, 0x18, 0xe3, 0xfc, 0x29, 0x13, 0x89, 0x0a, 0x5c,
    0x50, 0x90, 0x9a, 0x75, 0x42, 0xd9, 0xe1, 0x02, 0x03, 0x01, 0x00, 0x01, 0xa3, 0x53, 0x30, 0x51,
    0x30, 0x1d, 0x06, 0x03, 0x55, 0x1d, 0x0e, 0x04, 0x16, 0x04, 0x14, 0x47, 0xe1, 0x40, 0xb9, 0x56,
    0x04, 0xff, 0x56, 0x0f, 0x0f, 0xd1, 0x2a, 0x73, 0x0f, 0x0a, 0xd9, 0x23, 0xa3, 0x50, 0x3c, 0x30,
    0x1f, 0x06, 0x03, 0x55, 0x1d, 0x23, 0x04, 0x18, 0x30, 0x16, 0x80, 0x14, 0x47, 0xe1, 0x40, 0xb9,
    0x56, 0x04, 0xff, 0x56, 0x0f, 0x0f, 0xd1, 0x2a, 0x73, 0x0f, 0x0a, 0xd9, 0x23, 0xa3, 0x50, 0x3c,
    0x30, 0x0f, 0x06, 0x03, 0x55, 0x1d, 0x13, 0x01, 0x01, 0xff, 0x04, 0x05, 0x30, 0x03, 0x01, 0x01,
    0xff, 0x30, 0x0d, 0x06, 0x09, 0x2a, 0x86, 0x48, 0x86, 0xf7, 0x0d, 0x01, 0x01, 0x0b, 0x05, 0x00,
    0x03, 0x82, 0x01, 0x01, 0x00, 0x5b, 0x06, 0x36, 0x78, 0x6e, 0xb0, 0xe7, 0x55, 0x31, 0x15, 0xda,
    0x29, 0x43, 0x70, 0x8c, 0x51, 0x2d, 0x9e, 0x98, 0xed, 0x4c, 0xc3, 0xcd, 0xb4, 0x66, 0x78, 0xf1,
    0xc0, 0x35, 0x46, 0x75, 0x31, 0x10, 0x4c, 0x47, 0x5b, 0x78, 0x76, 0x2b, 0x22, 0xe7, 0xe5, 0xc2,
    0xa9, 0xca, 0xbd, 0x12, 0xd5, 0xb7, 0xdd, 0xc6, 0x58, 0x0e, 0xcc, 0xbf, 0x2d, 0xb2, 0x04, 0x88,
    0x38, 0x9b, 0x47, 0x73, 0xb2, 0xe6, 0x24, 0xcc, 0x8e, 0x19, 0xda, 0x40, 0xb2, 0xc2, 0xe0, 0x81,
    0x43, 0xde, 0x8d, 0x75, 0xa6, 0x72, 0xd9, 0x10, 0x7c, 0xb8, 0x15, 0x0a, 0x1d, 0x39, 0xa5, 0x00,
    0x67, 0xe7, 0x64, 0x51, 0x3c, 0xa3, 0x52, 0x34, 0x67, 0xc6, 0x27, 0x59, 0x97, 0x6a, 0x9f, 0x3c,
    0x4e, 0xa1, 0xe7, 0xe2, 0xf2, 0x4d, 0x61, 0xd2, 0x76, 0xbd, 0xf2, 0xd0, 0x3a, 0x3e, 0x59, 0xa9,
    0x09, 0x0d, 0xa0, 0x82, 0xa5, 0xbd, 0xb1, 0xb7, 0x7e, 0xe3, 0xb7, 0x78, 0x9c, 0x6f, 0xfe, 0x1f,
    0xc8, 0xf6, 0xf9, 0xb7, 0x65, 0xf9, 0x5b, 0x53, 0xf0, 0xc8, 0x1e, 0x77, 0x53, 0x11, 0x82, 0x6f,
    0xb3, 0xa7, 0x59, 0x45, 0x64, 0x93, 0xfb, 0x9b, 0xe9, 0x8c, 0x7f, 0xfa, 0x1d, 0xb7, 0x48, 0x85,
    0x29, 0xd1, 0xbc, 0x15, 0x6a, 0x8f, 0x48, 0xad, 0xcf, 0xbb, 0xdb, 0x5d, 0x29, 0x24, 0xaa, 0x00,
    0x6a, 0x09, 0xbe, 0xcc, 0x1d, 0xd2, 0xdf, 0x71, 0xfa, 0x8b, 0x32, 0x99, 0x4a, 0x5b, 0x85, 0x85,
    0x1e, 0x5d, 0xd3, 0xe4, 0xb9, 0x78, 0x56, 0x10, 0x49, 0xf0, 0x93, 0x90, 0x54, 0x13, 0x1b, 0xf2,
    0x69, 0x41, 0x36, 0x80, 0x9d, 0x21, 0x3a, 0xf8, 0x7c, 0x73, 0x4e, 0x40, 0x46, 0x85, 0xf3, 0xaa,
    0xc7, 0x2c, 0x50, 0x2d, 0xc8, 0x1e, 0x9b, 0x81, 0x41, 0x63, 0x12, 0x37, 0x8d, 0x8d, 0x2b, 0x09,
    0x99, 0x37, 0xd7, 0xaa, 0x59,
];

const CERT_B: [u8; 789] = [
    0x30, 0x82, 0x03, 0x11, 0x30, 0x82, 0x01, 0xf9, 0xa0, 0x03, 0x02, 0x01, 0x02, 0x02, 0x14, 0x35,
    0xbf, 0xdc, 0xbc, 0x38, 0x8e, 0x12, 0x77, 0x28, 0x4e, 0xe3, 0x98, 0xed, 0x6d, 0x2e, 0x8d, 0xd1,
    0x40, 0x2c, 0x8a, 0x30, 0x0d, 0x06, 0x09, 0x2a, 0x86, 0x48, 0x86, 0xf7, 0x0d, 0x01, 0x01, 0x0b,
    0x05, 0x00, 0x30, 0x18, 0x31, 0x16, 0x30, 0x14, 0x06, 0x03, 0x55, 0x04, 0x03, 0x0c, 0x0d, 0x62,
    0x2e, 0x65, 0x78, 0x61, 0x6d, 0x70, 0x6c, 0x65, 0x2e, 0x6f, 0x72, 0x67, 0x30, 0x1e, 0x17, 0x0d,
    0x32, 0x36, 0x31, 0x31, 0x31, 0x39, 0x31, 0x36, 0x30, 0x36, 0x35, 0x34, 0x5a, 0x17, 0x0d, 0x34,
    0x36, 0x30, 0x31, 0x31, 0x38, 0x31, 0x36, 0x30, 0x36, 0x35, 0x34, 0x5a, 0x30, 0x18, 0x31, 0x16,
    0x30, 0x14, 0x06, 0x03, 0x55, 0x04, 0x03, 0x0c, 0x0d, 0x62, 0x2e, 0x65, 0x78, 0x61, 0x6d, 0x70,
    0x6c, 0x65, 0x2e, 0x6f, 0x72, 0x67, 0x30, 0x82, 0x01, 0x22, 0x30, 0x0d, 0x06, 0x09, 0x2a, 0x86,
    0x48, 0x86, 0xf7, 0x0d, 0x01, 0x01, 0x01, 0x05, 0x00, 0x03, 0x82, 0x01, 0x0f, 0x00, 0x30, 0x82,
    0x01, 0x0a, 0x02, 0x82, 0x01, 0x01, 0x00, 0xb0, 0x76, 0x5b, 0x28, 0xa2, 0x30, 0x79, 0x2f, 0x64,
    0xd6, 0xb2, 0x35, 0xd6, 0x95, 0x50, 0x53, 0x9b, 0xc8, 0x0f, 0x79, 0xa7, 0x65, 0x8d, 0xd4, 0x45,
    0x77, 0x0c, 0xd6, 0x71, 0xb3, 0xbb, 0xce, 0xbf, 0x3b, 0x5f, 0xb1, 0xf9, 0xe8, 0x7c, 0x17, 0x39,
    0xc5, 0x98, 0x55, 0x12, 0x55, 0xcf, 0x03, 0x03, 0x5c, 0x0a, 0x79, 0x41, 0x79, 0x81, 0x2e, 0xeb,
    0xaa, 0x6e, 0x4a, 0x3c, 0x1d, 0xb4, 0x3c, 0x9d, 0x8a, 0x4a, 0xde, 0xc0, 0xe1, 0xb0, 0xf3, 0x1b,
    0xa6, 0xad, 0xe9, 0xf7, 0x33, 0x21, 0x15, 0xb1, 0x49, 0x64, 0xe7, 0x75, 0x1d, 0x24, 0x2e, 0x86,
    0x6f, 0x2b, 0xe2, 0x1b, 0x61, 0x55, 0x3d, 0xee, 0xc7, 0x0d, 0x4a, 0xa3, 0xa8, 0x7c, 0xc2, 0x84,
    0x2c, 0x8a, 0xaa, 0xa7, 0x42, 0xb9, 0x3d, 0x06, 0xa7, 0xfc, 0xac, 0xdf, 0x23, 0x35, 0x12, 0x1d,
    0x19, 0x5c, 0xef, 0x94, 0x71, 0xd9, 0xf6, 0x03, 0x30, 0xa8, 0x1d, 0x9c, 0xba, 0x00, 0xa2, 0x7d,
    0xfa, 0xa3, 0x90, 0xc0, 0xb3, 0x17, 0x0e, 0xb7, 0xc0, 0x6b, 0x67, 0x9a, 0x19, 0x93, 0xcc, 0xf2,
    0x8e, 0xda, 0x8c, 0xb0, 0xf5, 0xcb, 0xea, 0xb7, 0xc0, 0xe3, 0x98, 0x14, 0xd5, 0xe3, 0xc6, 0xae,
    0xea, 0x11, 0xf2, 0x59, 0x7a, 0x82, 0xf0, 0xfc, 0x21, 0xea, 0x35, 0x53, 0xe8, 0x2b, 0xd6, 0xc1,
    0x07, 0x20, 0x88, 0x93, 0x1f, 0x84, 0xf5, 0x1b, 0x1f, 0x30, 0x0d, 0xa6, 0xf9, 0x32, 0x59, 0xb6,
    0xab, 0x82, 0xf0, 0x48, 0x5c, 0x6f, 0x46, 0x5a, 0x99, 0x71, 0x15, 0x25, 0x02, 0xce, 0x8f, 0x32,
    0xab, 0x40, 0x73, 0xf1, 0x5b, 0xc4, 0x61, 0x32, 0xb2, 0xe2, 0x5b, 0x53, 0xcb, 0xcd, 0xeb, 0xc1,
    0xb1, 0xc4, 0x70, 0x6c, 0xf7, 0xca, 0x5c, 0x80, 0x9f, 0x6c, 0x29, 0x91, 0x8e, 0xbd, 0x05, 0x07,
    0xf9, 0x61, 0xcf, 0xf8, 0x9e, 0x27, 0xc1, 0x02, 0x03, 0x01, 0x00, 0x01, 0xa3, 0x53, 0x30, 0x51,
    0x30, 0x1d, 0x06, 0x03, 0x55, 0x1d, 0x0e, 0x04, 0x16, 0x04, 0x14, 0x2c, 0x6b, 0xe8, 0x67, 0xc9,
    0x44, 0xe3, 0x9e, 0x35, 0xb8, 0xfb, 0x8f, 0xc8, 0x80, 0x57, 0x3e, 0xe2, 0x1c, 0x74, 0xfe, 0x30,
    0x1f, 0x06, 0x03, 0x55, 0x1d, 0x23, 0x04, 0x18, 0x30, 0x16, 0x80, 0x14, 0x2c, 0x6b, 0xe8, 0x67,
    0xc9, 0x44, 0xe3, 0x9e, 0x35, 0xb8, 0xfb, 0x8f, 0xc8, 0x80, 0x57, 0x3e, 0xe2, 0x1c, 0x74, 0xfe,
    0x30, 0x0f, 0x06, 0x03, 0x55, 0x1d, 0x13, 0x01, 0x01, 0xff, 0x04, 0x05, 0x30, 0x03, 0x01, 0x01,
    0xff, 0x30, 0x0d, 0x06, 0x09, 0x2a, 0x86, 0x48, 0x86, 0xf7, 0x0d, 0x01, 0x01, 0x0b, 0x05, 0x00,
    0x03, 0x82, 0x01, 0x01, 0x00, 0xa2, 0x19, 0x2b, 0x16, 0x91, 0xcf, 0x74, 0x98, 0x67, 0xa4, 0xfd,
    0xa1, 0x33, 0x2b, 0x76, 0x45, 0x8b, 0x18, 0x42, 0x0b, 0xaa, 0x48, 0xc3, 0x43, 0x27, 0x80, 0xcc,
    0x9c, 0x54, 0x3b, 0x65, 0x9d, 0x7b, 0x5a, 0x90, 0x97, 0x16, 0x74, 0x92, 0x5a, 0x30, 0xd3, 0xf3,
    0xc5, 0xbe, 0x16, 0xd7, 0xf3, 0x33, 0x94, 0x65, 0xef, 0x3a, 0xbc, 0xe8, 0xd4, 0x89, 0xc5, 0x00,
    0xc1, 0x5f, 0x34, 0xa5, 0x24, 0xe7, 0xe1, 0xaa, 0xf0, 0xa9, 0x0a, 0xd3, 0x74, 0x0c, 0x2d, 0xd6,
    0xff, 0xcc, 0x9d, 0xe9, 0x80, 0xaa, 0x79, 0x65, 0xc0, 0x84, 0x41, 0x73, 0xce, 0x3d, 0x91, 0x41,
    0x46, 0x59, 0xd4, 0x4f, 0xef, 0xc1, 0x43, 0x21, 0xb5, 0xbd, 0xba, 0xb9, 0xdf, 0x35, 0x51, 0x1b,
    0xf7, 0x0d, 0x86, 0x23, 0x2d, 0xf8, 0x68, 0x14, 0x0b, 0x97, 0x74, 0xe2, 0xcd, 0xeb, 0xa3, 0xcf,
    0xaf, 0xf7, 0x98, 0x80, 0xdf, 0xac, 0x6a, 0x49, 0x30, 0xcc, 0x93, 0xd3, 0xc9, 0x54, 0x25, 0xfa,
    0x11, 0x73, 0xcc, 0xe2, 0x0d, 0x27, 0x10, 0x3f, 0x72, 0xf5, 0x1e, 0xb0, 0x0a, 0xac, 0xb7, 0xb0,
    0xc8, 0xc7, 0xc7, 0x4e, 0x05, 0xc7, 0x56, 0x71, 0x79, 0x5c, 0xde, 0xc9, 0xac, 0xbb, 0xbe, 0x60,
    0x19, 0x14, 0x16, 0x5b, 0xd7, 0x83, 0x25, 0xd0, 0x2b, 0x1a, 0x4a, 0x59, 0x49, 0x92, 0xbf, 0xea,
    0xc0, 0xb8, 0x3b, 0xbb, 0x1d, 0x14, 0x56, 0xb0, 0x86, 0xaf, 0x82, 0x22, 0xf8, 0x5b, 0x8d, 0x89,
    0x55, 0xad, 0xe2, 0x62, 0xbd, 0xe8, 0x6e, 0x8b, 0x55, 0x3f, 0x0e, 0xbe, 0xc8, 0x65, 0xe4, 0x93,
    0xc3, 0x24, 0x70, 0xe6, 0xb5, 0xa8, 0xd8, 0x50, 0x33, 0x18, 0xb1, 0xdc, 0x58, 0x96, 0xe2, 0xad,
    0x1c, 0xcc, 0xa2, 0x7b, 0x1d, 0x61, 0xed, 0x4c, 0x86, 0x32, 0xd7, 0xd9, 0x2e, 0xd5, 0xea, 0xea,
    0x51, 0x35, 0x3c, 0x04, 0x1c,
];

const NOT_BEFORE: i64 = 1795104414;
const NOT_AFTER: i64 = 2399904414;
const FINGERPRINT_A: &str = "37BA35A3755A37EC8C1ED1A6A26EE3495C4A0E8583B025FA60ED6A3C926D0061";
const FINGERPRINT_B: &str = "C6D6F777F09E58D70038DC886673E6F52E3D63DEA2281CDAE39C96FFB3BB0C2E";

fn fingerprint_of(m: &CertificateMap, host: &str) -> Option<(String, i64)> {
    m.get(host).map(|c| (c.fingerprint.clone(), c.not_after))
}

#[test]
fn new_store_is_empty() {
    let m = CertificateMap::new("/tmp/certs");
    assert_eq!(m.len(), 0);
    assert_eq!(m.path_to_file(), "/tmp/certs");
    assert!(m.get("example.org").is_none());
    assert_eq!(m.file_contents(), "");
}

#[test]
fn load_store_file() {
    let text = "example.org;ABCD;1700000000\nOther.NET;EF01;-5\r\n";
    let m = CertificateMap::load_from_contents("p", text).unwrap();
    assert_eq!(m.len(), 2);
    assert_eq!(fingerprint_of(&m, "example.org"), Some(("ABCD".to_string(), 1700000000)));
    assert_eq!(fingerprint_of(&m, "other.net"), Some(("EF01".to_string(), -5)));
    assert!(m.get("Other.NET").is_none());
    assert_eq!(m.path_to_file(), "p");
}

#[test]
fn load_later_line_wins() {
    let text = "a.org;1;10\nA.ORG;2;20\n";
    let m = CertificateMap::load_from_contents("p", text).unwrap();
    assert_eq!(m.len(), 1);
    assert_eq!(fingerprint_of(&m, "a.org"), Some(("2".to_string(), 20)));
}

#[test]
fn load_expiry_takes_rest_of_line() {
    assert_eq!(
        CertificateMap::load_from_contents("p", "a;b;1;2\n").err(),
        Some(StoreError::InvalidExpiry(0))
    );
}

#[test]
fn load_missing_field() {
    assert_eq!(CertificateMap::load_from_contents("p", "a.org;AB\n").err(), Some(StoreError::MissingField(0)));
    assert_eq!(
        CertificateMap::load_from_contents("p", "a.org;AB;1\n\n").err(),
        Some(StoreError::MissingField(1))
    );
}

#[test]
fn load_invalid_expiry() {
    assert_eq!(
        CertificateMap::load_from_contents("p", "a.org;AB;1\nb.org;CD;soon\n").err(),
        Some(StoreError::InvalidExpiry(1))
    );
}

#[test]
fn load_empty_file() {
    let m = CertificateMap::load_from_contents("p", "").unwrap();
    assert_eq!(m.len(), 0);
}

#[test]
fn store_file_round_trip() {
    let mut m = CertificateMap::new("p");
    m.match_certificate("b.org", "FF00".to_string(), 30, 0);
    m.match_certificate("a.org", "00FF".to_string(), -7, 0);
    let text = m.file_contents();
    assert_eq!(text, "b.org;FF00;30\na.org;00FF;-7\n");
    let back = CertificateMap::load_from_contents("p", &text).unwrap();
    assert_eq!(back.len(), 2);
    assert_eq!(fingerprint_of(&back, "a.org"), Some(("00FF".to_string(), -7)));
    assert_eq!(fingerprint_of(&back, "b.org"), Some(("FF00".to_string(), 30)));
    assert_eq!(back.file_contents(), text);
}

#[test]
fn match_unknown_host_is_added_in_lower_case() {
    let mut m = CertificateMap::new("p");
    assert_eq!(m.match_certificate("Example.ORG", "AA".to_string(), 100, 50), CertificateMatch::Added);
    assert_eq!(fingerprint_of(&m, "example.org"), Some(("AA".to_string(), 100)));
    assert!(m.get("Example.ORG").is_none());
    assert_eq!(m.match_certificate("ÉCOLE.fr", "BB".to_string(), 100, 50), CertificateMatch::Added);
    assert_eq!(fingerprint_of(&m, "école.fr"), Some(("BB".to_string(), 100)));
}

#[test]
fn match_same_certificate_is_unchanged() {
    let mut m = CertificateMap::new("p");
    m.match_certificate("a.org", "AA".to_string(), 100, 50);
    assert_eq!(m.match_certificate("a.org", "AA".to_string(), 999, 500), CertificateMatch::Unchanged);
    assert_eq!(fingerprint_of(&m, "a.org"), Some(("AA".to_string(), 100)));
}

#[test]
fn match_other_certificate_before_expiry_is_suspicious() {
    let mut m = CertificateMap::new("p");
    m.match_certificate("a.org", "AA".to_string(), 100, 50);
    assert_eq!(m.match_certificate("a.org", "BB".to_string(), 200, 99), CertificateMatch::Suspicious);
    assert_eq!(fingerprint_of(&m, "a.org"), Some(("AA".to_string(), 100)));
}

#[test]
fn match_other_certificate_after_expiry_replaces() {
    let mut m = CertificateMap::new("p");
    m.match_certificate("a.org", "AA".to_string(), 100, 50);
    m.match_certificate("b.org", "CC".to_string(), 300, 50);
    assert_eq!(m.match_certificate("a.org", "BB".to_string(), 200, 100), CertificateMatch::Replaced);
    assert_eq!(fingerprint_of(&m, "a.org"), Some(("BB".to_string(), 200)));
    assert_eq!(fingerprint_of(&m, "b.org"), Some(("CC".to_string(), 300)));
    assert_eq!(m.len(), 2);
}

#[test]
fn verify_adds_fingerprint_of_new_host() {
    let mut m = CertificateMap::new("p");
    let r = m.verify_at("A.Example.Org", &CERT_A, NOT_BEFORE + 10);
    assert_eq!(r, Ok(CertificateMatch::Added));
    assert_eq!(fingerprint_of(&m, "a.example.org"), Some((FINGERPRINT_A.to_string(), NOT_AFTER)));
}

#[test]
fn verify_same_certificate_again() {
    let mut m = CertificateMap::new("p");
    m.verify_at("a.example.org", &CERT_A, NOT_BEFORE).unwrap();
    assert_eq!(m.verify_at("a.example.org", &CERT_A, NOT_AFTER - 1), Ok(CertificateMatch::Unchanged));
    assert_eq!(m.len(), 1);
}

#[test]
fn verify_other_certificate_is_suspicious() {
    let mut m = CertificateMap::new("p");
    m.verify_at("a.example.org", &CERT_A, NOT_BEFORE).unwrap();
    assert_eq!(m.verify_at("a.example.org", &CERT_B, NOT_BEFORE + 1), Ok(CertificateMatch::Suspicious));
    assert_eq!(fingerprint_of(&m, "a.example.org"), Some((FINGERPRINT_A.to_string(), NOT_AFTER)));
    assert_eq!(m.verify_at("b.example.org", &CERT_B, NOT_BEFORE + 1), Ok(CertificateMatch::Added));
    assert_eq!(fingerprint_of(&m, "b.example.org"), Some((FINGERPRINT_B.to_string(), NOT_AFTER)));
}

#[test]
fn verify_refuses_bad_der() {
    let mut m = CertificateMap::new("p");
    assert_eq!(m.verify_at("a.org", &[0x30, 0x03, 0x01], NOT_BEFORE), Err(VerifyError::BadDer));
    assert_eq!(m.verify_at("a.org", &[], NOT_BEFORE), Err(VerifyError::BadDer));
    assert_eq!(m.len(), 0);
}

#[test]
fn verify_refuses_expired_certificate() {
    let mut m = CertificateMap::new("p");
    assert_eq!(m.verify_at("a.org", &CERT_A, NOT_AFTER), Err(VerifyError::CertExpired));
    assert_eq!(m.verify_at("a.org", &CERT_A, NOT_BEFORE - 1), Err(VerifyError::CertExpired));
    assert_eq!(m.len(), 0);
}

#[test]
fn verify_refuses_bad_signature() {
    let mut forged = CERT_A.to_vec();
    let last = forged.len() - 1;
    forged[last] ^= 0x01;
    let mut m = CertificateMap::new("p");
    assert_eq!(m.verify_at("a.org", &forged, NOT_BEFORE), Err(VerifyError::InvalidSignature));
    assert_eq!(m.len(), 0);
}

#[test]
fn verify_with_the_clock_refuses_bad_der() {
    let mut m = CertificateMap::new("p");
    assert_eq!(m.verify("a.org", &[1, 2, 3]), Err(VerifyError::BadDer));
}

#[test]
fn verifier_refuses_bad_der() {
    let v = TOFUVerifier::new("/tmp/known_hosts");
    assert_eq!(v.check_certificate("a.org", &[0u8; 4]).err(), Some(VerifyError::BadDer));
}

#[test]
fn verifier_checks_on_its_store() {
    let v = TOFUVerifier::new("/tmp/known_hosts");
    match v.check_certificate("a.example.org", &CERT_A) {
        Ok((o, text)) => {
            assert_eq!(o, CertificateMatch::Added);
            assert_eq!(text, format!("a.example.org;{};{}\n", FINGERPRINT_A, NOT_AFTER));
            let again = v.check_certificate("a.example.org", &CERT_A).unwrap();
            assert_eq!(again.0, CertificateMatch::Unchanged);
        }
        Err(e) => assert_eq!(e, VerifyError::CertExpired),
    }
}

#[test]
fn load_hosts_differing_in_case_share_a_key() {
    let m = CertificateMap::load_from_contents("p", "Example.COM;AB12;1700000000\nexample.com;CD34;5\n").unwrap();
    assert_eq!(m.len(), 1);
    assert_eq!(fingerprint_of(&m, "example.com"), Some(("CD34".to_string(), 5)));
}
