use roughenough_client::error::Error;
use roughenough_client::keys::parse_public_key;
use roughenough_client::merkle::MerkleTree;
use roughenough_client::request::receive_response;
use roughenough_client::response::{process_response, u32_field, ParsedResponse, ResponseHandler};
use roughenough_client::tag::Tag;
use roughenough_client::version::Version;

const LONG_TERM_PUBLIC_KEY: [u8; 32] = [
    0x79, 0xb5, 0x56, 0x2e, 0x8f, 0xe6, 0x54, 0xf9, 0x40, 0x78, 0xb1, 0x12,
    0xe8, 0xa9, 0x8b, 0xa7, 0x90, 0x1f, 0x85, 0x3a, 0xe6, 0x95, 0xbe, 0xd7,
    0xe0, 0xe3, 0x91, 0x0b, 0xad, 0x04, 0x96, 0x64,
];
const CLASSIC_RESPONSE: [u8; 424] = [
    0x05, 0x00, 0x00, 0x00, 0x40, 0x00, 0x00, 0x00, 0x80, 0x00, 0x00, 0x00,
    0xe4, 0x00, 0x00, 0x00, 0x7c, 0x01, 0x00, 0x00, 0x53, 0x49, 0x47, 0x00,
    0x50, 0x41, 0x54, 0x48, 0x53, 0x52, 0x45, 0x50, 0x43, 0x45, 0x52, 0x54,
    0x49, 0x4e, 0x44, 0x58, 0x67, 0xe2, 0xc9, 0x8c, 0x16, 0xe7, 0xd1, 0x54,
    0x08, 0xe1, 0x45, 0x37, 0x19, 0xf5, 0xf3, 0x8e, 0x6b, 0xd0, 0x54, 0xc5,
    0x5b, 0xf6, 0x6c, 0x54, 0xe7, 0xee, 0xb3, 0x4a, 0x2f, 0x42, 0xd6, 0xc8,
    0x12, 0xda, 0xcd, 0xab, 0x72, 0x6e, 0x4f, 0xcf, 0x50, 0x61, 0x6e, 0x76,
    0x99, 0x6b, 0x47, 0x15, 0x69, 0xef, 0x26, 0x14, 0x09, 0x8d, 0x09, 0xf9,
    0xc8, 0x8b, 0x24, 0x89, 0xb9, 0x52, 0x87, 0x06, 0x6e, 0x07, 0xba, 0x36,
    0x7e, 0xd6, 0x3f, 0x8c, 0xb4, 0xdc, 0x6b, 0x78, 0xfb, 0x74, 0x76, 0xcb,
    0x9e, 0x48, 0x1a, 0x11, 0xd9, 0x33, 0x3c, 0x97, 0xf8, 0x05, 0x6d, 0x5c,
    0x26, 0x70, 0xcc, 0xa9, 0x42, 0xbf, 0xf2, 0x69, 0x48, 0xdf, 0x60, 0xa4,
    0x73, 0xe0, 0x8a, 0x38, 0xc0, 0x20, 0x92, 0x46, 0xea, 0xa7, 0x6d, 0x6f,
    0x42, 0x9d, 0x0d, 0x61, 0xde, 0xac, 0x05, 0x4a, 0x63, 0xc3, 0x88, 0x0b,
    0x03, 0x00, 0x00, 0x00, 0x04, 0x00, 0x00, 0x00, 0x0c, 0x00, 0x00, 0x00,
    0x52, 0x41, 0x44, 0x49, 0x4d, 0x49, 0x44, 0x50, 0x52, 0x4f, 0x4f, 0x54,
    0x40, 0x42, 0x0f, 0x00, 0x40, 0xe2, 0xa5, 0x07, 0x31, 0xaf, 0x05, 0x00,
    0x65, 0xb7, 0x09, 0xd5, 0x18, 0xbd, 0xab, 0xbf, 0x97, 0xa9, 0x26, 0x45,
    0xdf, 0xfe, 0xec, 0x34, 0x11, 0xc0, 0x32, 0x45, 0x26, 0x25, 0xb0, 0x7c,
    0xbd, 0x19, 0x7e, 0x12, 0xed, 0xe0, 0x16, 0x5b, 0x58, 0x9d, 0x02, 0x2f,
    0x61, 0x30, 0xb4, 0xd9, 0x1d, 0x04, 0x02, 0x0f, 0x2d, 0x18, 0xed, 0x06,
    0x7f, 0x65, 0xe9, 0x6a, 0xdb, 0xf3, 0x16, 0x1b, 0x74, 0xb3, 0x30, 0x4a,
    0x7d, 0xb3, 0x5e, 0xdc, 0x02, 0x00, 0x00, 0x00, 0x40, 0x00, 0x00, 0x00,
    0x53, 0x49, 0x47, 0x00, 0x44, 0x45, 0x4c, 0x45, 0x82, 0xbb, 0xc4, 0x82,
    0x6e, 0x53, 0xe6, 0x2d, 0xe0, 0xd0, 0x6d, 0x6d, 0x4e, 0x7a, 0xe1, 0xe0,
    0xf7, 0x18, 0xa8, 0x22, 0x94, 0x49, 0xd0, 0xbf, 0xcc, 0xe6, 0x51, 0xf6,
    0x75, 0xa9, 0x6e, 0x39, 0x9c, 0x47, 0x00, 0xed, 0xd9, 0xd1, 0xdb, 0x63,
    0x1a, 0xbc, 0xe5, 0xf3, 0x0f, 0xd7, 0x3c, 0xe1, 0xba, 0x55, 0xc5, 0x8d,
    0x2d, 0x43, 0x33, 0x43, 0x4a, 0x52, 0x1f, 0xf0, 0x1d, 0x04, 0x89, 0x0e,
    0x03, 0x00, 0x00, 0x00, 0x20, 0x00, 0x00, 0x00, 0x28, 0x00, 0x00, 0x00,
    0x50, 0x55, 0x42, 0x4b, 0x4d, 0x49, 0x4e, 0x54, 0x4d, 0x41, 0x58, 0x54,
    0xe7, 0xf1, 0x62, 0xa1, 0x0b, 0xec, 0x55, 0x9a, 0xfe, 0xa1, 0x95, 0xe4,
    0xdc, 0xe8, 0x4b, 0x69, 0x56, 0x8d, 0x5d, 0x2c, 0xb0, 0x96, 0x3e, 0xb4,
    0x46, 0xc0, 0x68, 0x5e, 0x2b, 0x17, 0xf2, 0xf0, 0x00, 0xc0, 0x29, 0xf7,
    0x3d, 0x54, 0x05, 0x00, 0x00, 0x40, 0x1e, 0x18, 0x24, 0x0a, 0x06, 0x00,
    0x01, 0x00, 0x00, 0x00,
];
const CLASSIC_ROOT: [u8; 64] = [
    0x65, 0xb7, 0x09, 0xd5, 0x18, 0xbd, 0xab, 0xbf, 0x97, 0xa9, 0x26, 0x45,
    0xdf, 0xfe, 0xec, 0x34, 0x11, 0xc0, 0x32, 0x45, 0x26, 0x25, 0xb0, 0x7c,
    0xbd, 0x19, 0x7e, 0x12, 0xed, 0xe0, 0x16, 0x5b, 0x58, 0x9d, 0x02, 0x2f,
    0x61, 0x30, 0xb4, 0xd9, 0x1d, 0x04, 0x02, 0x0f, 0x2d, 0x18, 0xed, 0x06,
    0x7f, 0x65, 0xe9, 0x6a, 0xdb, 0xf3, 0x16, 0x1b, 0x74, 0xb3, 0x30, 0x4a,
    0x7d, 0xb3, 0x5e, 0xdc,
];
const CLASSIC_LEAF: [u8; 64] = [
    0x98, 0x1a, 0x3d, 0x27, 0x23, 0x31, 0x47, 0xaa, 0xa2, 0x14, 0x48, 0x8e,
    0xed, 0xe6, 0xa6, 0x59, 0x1a, 0x64, 0x96, 0x6c, 0x81, 0xa5, 0xa1, 0x1d,
    0x6d, 0x0d, 0x2b, 0xbb, 0xe0, 0x40, 0xe6, 0xde, 0x44, 0x1a, 0xda, 0x48,
    0x92, 0x74, 0x87, 0xe8, 0x08, 0x45, 0xf4, 0xbb, 0xd6, 0xc9, 0x37, 0xce,
    0x09, 0x9e, 0xab, 0x39, 0x63, 0x3e, 0x27, 0xb4, 0x1e, 0x31, 0xeb, 0xde,
    0x71, 0xc4, 0x62, 0x9e,
];
const CLASSIC_SIBLING: [u8; 64] = [
    0x6e, 0x07, 0xba, 0x36, 0x7e, 0xd6, 0x3f, 0x8c, 0xb4, 0xdc, 0x6b, 0x78,
    0xfb, 0x74, 0x76, 0xcb, 0x9e, 0x48, 0x1a, 0x11, 0xd9, 0x33, 0x3c, 0x97,
    0xf8, 0x05, 0x6d, 0x5c, 0x26, 0x70, 0xcc, 0xa9, 0x42, 0xbf, 0xf2, 0x69,
    0x48, 0xdf, 0x60, 0xa4, 0x73, 0xe0, 0x8a, 0x38, 0xc0, 0x20, 0x92, 0x46,
    0xea, 0xa7, 0x6d, 0x6f, 0x42, 0x9d, 0x0d, 0x61, 0xde, 0xac, 0x05, 0x4a,
    0x63, 0xc3, 0x88, 0x0b,
];
const RFC_RESPONSE: [u8; 340] = [
    0x52, 0x4f, 0x55, 0x47, 0x48, 0x54, 0x49, 0x4d, 0x48, 0x01, 0x00, 0x00,
    0x05, 0x00, 0x00, 0x00, 0x40, 0x00, 0x00, 0x00, 0x40, 0x00, 0x00, 0x00,
    0x84, 0x00, 0x00, 0x00, 0x1c, 0x01, 0x00, 0x00, 0x53, 0x49, 0x47, 0x00,
    0x50, 0x41, 0x54, 0x48, 0x53, 0x52, 0x45, 0x50, 0x43, 0x45, 0x52, 0x54,
    0x49, 0x4e, 0x44, 0x58, 0xf6, 0xc3, 0xea, 0x4a, 0xc3, 0x84, 0xb5, 0x13,
    0xc6, 0xa2, 0x28, 0x7e, 0x74, 0x7c, 0x2b, 0x1c, 0x24, 0x1b, 0x96, 0xa3,
    0xbb, 0xd4, 0x8f, 0x2c, 0x59, 0xca, 0xe9, 0x20, 0x5f, 0x87, 0x52, 0x73,
    0x8f, 0x20, 0x8d, 0x2a, 0x10, 0x91, 0x4d, 0x80, 0x90, 0xd5, 0xe1, 0x30,
    0x74, 0x0c, 0x47, 0x8a, 0xbe, 0x74, 0x16, 0x8d, 0x7b, 0x15, 0x48, 0x2e,
    0x08, 0x9d, 0x4e, 0xfc, 0x4a, 0x47, 0x4d, 0x01, 0x03, 0x00, 0x00, 0x00,
    0x04, 0x00, 0x00, 0x00, 0x0c, 0x00, 0x00, 0x00, 0x52, 0x41, 0x44, 0x49,
    0x4d, 0x49, 0x44, 0x50, 0x52, 0x4f, 0x4f, 0x54, 0x40, 0x42, 0x0f, 0x00,
    0x40, 0xe2, 0xa5, 0x07, 0x31, 0xaf, 0x05, 0x00, 0xc6, 0x7b, 0xe6, 0x8b,
    0xef, 0xfa, 0xa6, 0xdd, 0xb9, 0x09, 0x92, 0x1e, 0x8a, 0xc5, 0x1a, 0x14,
    0xac, 0xfd, 0x2d, 0x51, 0x85, 0x68, 0x6a, 0x2e, 0x25, 0x74, 0xdb, 0x98,
    0xfe, 0xfb, 0x30, 0xa8, 0x02, 0x00, 0x00, 0x00, 0x40, 0x00, 0x00, 0x00,
    0x53, 0x49, 0x47, 0x00, 0x44, 0x45, 0x4c, 0x45, 0x82, 0xbb, 0xc4, 0x82,
    0x6e, 0x53, 0xe6, 0x2d, 0xe0, 0xd0, 0x6d, 0x6d, 0x4e, 0x7a, 0xe1, 0xe0,
    0xf7, 0x18, 0xa8, 0x22, 0x94, 0x49, 0xd0, 0xbf, 0xcc, 0xe6, 0x51, 0xf6,
    0x75, 0xa9, 0x6e, 0x39, 0x9c, 0x47, 0x00, 0xed, 0xd9, 0xd1, 0xdb, 0x63,
    0x1a, 0xbc, 0xe5, 0xf3, 0x0f, 0xd7, 0x3c, 0xe1, 0xba, 0x55, 0xc5, 0x8d,
    0x2d, 0x43, 0x33, 0x43, 0x4a, 0x52, 0x1f, 0xf0, 0x1d, 0x04, 0x89, 0x0e,
    0x03, 0x00, 0x00, 0x00, 0x20, 0x00, 0x00, 0x00, 0x28, 0x00, 0x00, 0x00,
    0x50, 0x55, 0x42, 0x4b, 0x4d, 0x49, 0x4e, 0x54, 0x4d, 0x41, 0x58, 0x54,
    0xe7, 0xf1, 0x62, 0xa1, 0x0b, 0xec, 0x55, 0x9a, 0xfe, 0xa1, 0x95, 0xe4,
    0xdc, 0xe8, 0x4b, 0x69, 0x56, 0x8d, 0x5d, 0x2c, 0xb0, 0x96, 0x3e, 0xb4,
    0x46, 0xc0, 0x68, 0x5e, 0x2b, 0x17, 0xf2, 0xf0, 0x00, 0xc0, 0x29, 0xf7,
    0x3d, 0x54, 0x05, 0x00, 0x00, 0x40, 0x1e, 0x18, 0x24, 0x0a, 0x06, 0x00,
    0x00, 0x00, 0x00, 0x00,
];
const RFC_LEAF: [u8; 32] = [
    0xc6, 0x7b, 0xe6, 0x8b, 0xef, 0xfa, 0xa6, 0xdd, 0xb9, 0x09, 0x92, 0x1e,
    0x8a, 0xc5, 0x1a, 0x14, 0xac, 0xfd, 0x2d, 0x51, 0x85, 0x68, 0x6a, 0x2e,
    0x25, 0x74, 0xdb, 0x98, 0xfe, 0xfb, 0x30, 0xa8,
];
const LATE_RESPONSE: [u8; 360] = [
    0x05, 0x00, 0x00, 0x00, 0x40, 0x00, 0x00, 0x00, 0x40, 0x00, 0x00, 0x00,
    0xa4, 0x00, 0x00, 0x00, 0x3c, 0x01, 0x00, 0x00, 0x53, 0x49, 0x47, 0x00,
    0x50, 0x41, 0x54, 0x48, 0x53, 0x52, 0x45, 0x50, 0x43, 0x45, 0x52, 0x54,
    0x49, 0x4e, 0x44, 0x58, 0x2c, 0x2e, 0xd2, 0x82, 0xad, 0x5c, 0xcd, 0x53,
    0xdc, 0xee, 0x0e, 0x13, 0xbe, 0x6b, 0xac, 0x18, 0x08, 0xdf, 0x96, 0xa9,
    0x21, 0xa7, 0x10, 0x10, 0xf7, 0xed, 0x5e, 0xb0, 0x5a, 0x31, 0xd3, 0x6b,
    0x79, 0x57, 0x7f, 0x89, 0x8f, 0x0b, 0x4e, 0xdb, 0xdf, 0xd0, 0x6c, 0x77,
    0x1b, 0x65, 0xf1, 0x16, 0x2d, 0x4b, 0xc0, 0x29, 0xb5, 0xe8, 0x7c, 0xdf,
    0x62, 0x36, 0x81, 0x2d, 0x49, 0x12, 0xcd, 0x08, 0x03, 0x00, 0x00, 0x00,
    0x04, 0x00, 0x00, 0x00, 0x0c, 0x00, 0x00, 0x00, 0x52, 0x41, 0x44, 0x49,
    0x4d, 0x49, 0x44, 0x50, 0x52, 0x4f, 0x4f, 0x54, 0x05, 0x00, 0x00, 0x00,
    0x00, 0x80, 0x98, 0x28, 0x17, 0x65, 0x06, 0x00, 0x98, 0x1a, 0x3d, 0x27,
    0x23, 0x31, 0x47, 0xaa, 0xa2, 0x14, 0x48, 0x8e, 0xed, 0xe6, 0xa6, 0x59,
    0x1a, 0x64, 0x96, 0x6c, 0x81, 0xa5, 0xa1, 0x1d, 0x6d, 0x0d, 0x2b, 0xbb,
    0xe0, 0x40, 0xe6, 0xde, 0x44, 0x1a, 0xda, 0x48, 0x92, 0x74, 0x87, 0xe8,
    0x08, 0x45, 0xf4, 0xbb, 0xd6, 0xc9, 0x37, 0xce, 0x09, 0x9e, 0xab, 0x39,
    0x63, 0x3e, 0x27, 0xb4, 0x1e, 0x31, 0xeb, 0xde, 0x71, 0xc4, 0x62, 0x9e,
    0x02, 0x00, 0x00, 0x00, 0x40, 0x00, 0x00, 0x00, 0x53, 0x49, 0x47, 0x00,
    0x44, 0x45, 0x4c, 0x45, 0x82, 0xbb, 0xc4, 0x82, 0x6e, 0x53, 0xe6, 0x2d,
    0xe0, 0xd0, 0x6d, 0x6d, 0x4e, 0x7a, 0xe1, 0xe0, 0xf7, 0x18, 0xa8, 0x22,
    0x94, 0x49, 0xd0, 0xbf, 0xcc, 0xe6, 0x51, 0xf6, 0x75, 0xa9, 0x6e, 0x39,
    0x9c, 0x47, 0x00, 0xed, 0xd9, 0xd1, 0xdb, 0x63, 0x1a, 0xbc, 0xe5, 0xf3,
    0x0f, 0xd7, 0x3c, 0xe1, 0xba, 0x55, 0xc5, 0x8d, 0x2d, 0x43, 0x33, 0x43,
    0x4a, 0x52, 0x1f, 0xf0, 0x1d, 0x04, 0x89, 0x0e, 0x03, 0x00, 0x00, 0x00,
    0x20, 0x00, 0x00, 0x00, 0x28, 0x00, 0x00, 0x00, 0x50, 0x55, 0x42, 0x4b,
    0x4d, 0x49, 0x4e, 0x54, 0x4d, 0x41, 0x58, 0x54, 0xe7, 0xf1, 0x62, 0xa1,
    0x0b, 0xec, 0x55, 0x9a, 0xfe, 0xa1, 0x95, 0xe4, 0xdc, 0xe8, 0x4b, 0x69,
    0x56, 0x8d, 0x5d, 0x2c, 0xb0, 0x96, 0x3e, 0xb4, 0x46, 0xc0, 0x68, 0x5e,
    0x2b, 0x17, 0xf2, 0xf0, 0x00, 0xc0, 0x29, 0xf7, 0x3d, 0x54, 0x05, 0x00,
    0x00, 0x40, 0x1e, 0x18, 0x24, 0x0a, 0x06, 0x00, 0x00, 0x00, 0x00, 0x00,
];
const EARLY_RESPONSE: [u8; 360] = [
    0x05, 0x00, 0x00, 0x00, 0x40, 0x00, 0x00, 0x00, 0x40, 0x00, 0x00, 0x00,
    0xa4, 0x00, 0x00, 0x00, 0x3c, 0x01, 0x00, 0x00, 0x53, 0x49, 0x47, 0x00,
    0x50, 0x41, 0x54, 0x48, 0x53, 0x52, 0x45, 0x50, 0x43, 0x45, 0x52, 0x54,
    0x49, 0x4e, 0x44, 0x58, 0x3d, 0xbc, 0x64, 0x3a, 0x44, 0xb2, 0xcd, 0x6f,
    0x1d, 0x00, 0xbf, 0xd5, 0xc1, 0x10, 0x71, 0x9d, 0x26, 0x0b, 0x05, 0x88,
    0x93, 0x55, 0xbb, 0x23, 0x05, 0x1f, 0xcb, 0x9d, 0xeb, 0x9d, 0x38, 0xc7,
    0x71, 0xa7, 0xd6, 0xbf, 0x8a, 0xb3, 0x2a, 0x52, 0x1d, 0x7e, 0x55, 0x0d,
    0x15, 0x58, 0x3d, 0xeb, 0x96, 0x76, 0xb6, 0x04, 0xb4, 0xad, 0x1a, 0x30,
    0x93, 0x64, 0xee, 0x95, 0x33, 0xbb, 0xe8, 0x0c, 0x03, 0x00, 0x00, 0x00,
    0x04, 0x00, 0x00, 0x00, 0x0c, 0x00, 0x00, 0x00, 0x52, 0x41, 0x44, 0x49,
    0x4d, 0x49, 0x44, 0x50, 0x52, 0x4f, 0x4f, 0x54, 0x05, 0x00, 0x00, 0x00,
    0x00, 0x80, 0xaf, 0xe6, 0x4a, 0xf9, 0x04, 0x00, 0x98, 0x1a, 0x3d, 0x27,
    0x23, 0x31, 0x47, 0xaa, 0xa2, 0x14, 0x48, 0x8e, 0xed, 0xe6, 0xa6, 0x59,
    0x1a, 0x64, 0x96, 0x6c, 0x81, 0xa5, 0xa1, 0x1d, 0x6d, 0x0d, 0x2b, 0xbb,
    0xe0, 0x40, 0xe6, 0xde, 0x44, 0x1a, 0xda, 0x48, 0x92, 0x74, 0x87, 0xe8,
    0x08, 0x45, 0xf4, 0xbb, 0xd6, 0xc9, 0x37, 0xce, 0x09, 0x9e, 0xab, 0x39,
    0x63, 0x3e, 0x27, 0xb4, 0x1e, 0x31, 0xeb, 0xde, 0x71, 0xc4, 0x62, 0x9e,
    0x02, 0x00, 0x00, 0x00, 0x40, 0x00, 0x00, 0x00, 0x53, 0x49, 0x47, 0x00,
    0x44, 0x45, 0x4c, 0x45, 0x82, 0xbb, 0xc4, 0x82, 0x6e, 0x53, 0xe6, 0x2d,
    0xe0, 0xd0, 0x6d, 0x6d, 0x4e, 0x7a, 0xe1, 0xe0, 0xf7, 0x18, 0xa8, 0x22,
    0x94, 0x49, 0xd0, 0xbf, 0xcc, 0xe6, 0x51, 0xf6, 0x75, 0xa9, 0x6e, 0x39,
    0x9c, 0x47, 0x00, 0xed, 0xd9, 0xd1, 0xdb, 0x63, 0x1a, 0xbc, 0xe5, 0xf3,
    0x0f, 0xd7, 0x3c, 0xe1, 0xba, 0x55, 0xc5, 0x8d, 0x2d, 0x43, 0x33, 0x43,
    0x4a, 0x52, 0x1f, 0xf0, 0x1d, 0x04, 0x89, 0x0e, 0x03, 0x00, 0x00, 0x00,
    0x20, 0x00, 0x00, 0x00, 0x28, 0x00, 0x00, 0x00, 0x50, 0x55, 0x42, 0x4b,
    0x4d, 0x49, 0x4e, 0x54, 0x4d, 0x41, 0x58, 0x54, 0xe7, 0xf1, 0x62, 0xa1,
    0x0b, 0xec, 0x55, 0x9a, 0xfe, 0xa1, 0x95, 0xe4, 0xdc, 0xe8, 0x4b, 0x69,
    0x56, 0x8d, 0x5d, 0x2c, 0xb0, 0x96, 0x3e, 0xb4, 0x46, 0xc0, 0x68, 0x5e,
    0x2b, 0x17, 0xf2, 0xf0, 0x00, 0xc0, 0x29, 0xf7, 0x3d, 0x54, 0x05, 0x00,
    0x00, 0x40, 0x1e, 0x18, 0x24, 0x0a, 0x06, 0x00, 0x00, 0x00, 0x00, 0x00,
];
const TAMPERED_RESPONSE: [u8; 424] = [
    0x05, 0x00, 0x00, 0x00, 0x40, 0x00, 0x00, 0x00, 0x80, 0x00, 0x00, 0x00,
    0xe4, 0x00, 0x00, 0x00, 0x7c, 0x01, 0x00, 0x00, 0x53, 0x49, 0x47, 0x00,
    0x50, 0x41, 0x54, 0x48, 0x53, 0x52, 0x45, 0x50, 0x43, 0x45, 0x52, 0x54,
    0x49, 0x4e, 0x44, 0x58, 0x67, 0xe2, 0xc9, 0x8c, 0x16, 0xe7, 0xd1, 0x54,
    0x08, 0xe1, 0x45, 0x37, 0x19, 0xf5, 0xf3, 0x8e, 0x6b, 0xd0, 0x54, 0xc5,
    0x5b, 0xf6, 0x6c, 0x54, 0xe7, 0xee, 0xb3, 0x4a, 0x2f, 0x42, 0xd6, 0xc8,
    0x12, 0xda, 0xcd, 0xab, 0x72, 0x6e, 0x4f, 0xcf, 0x50, 0x61, 0x6e, 0x76,
    0x99, 0x6b, 0x47, 0x15, 0x69, 0xef, 0x26, 0x14, 0x09, 0x8d, 0x09, 0xf9,
    0xc8, 0x8b, 0x24, 0x89, 0xb9, 0x52, 0x87, 0x06, 0x6e, 0x07, 0xba, 0x36,
    0x7e, 0xd6, 0x3f, 0x8c, 0xb4, 0xdc, 0x6b, 0x78, 0xfb, 0x74, 0x76, 0xcb,
    0x9e, 0x48, 0x1a, 0x11, 0xd9, 0x33, 0x3c, 0x97, 0xf8, 0x05, 0x6d, 0x5c,
    0x26, 0x70, 0xcc, 0xa9, 0x42, 0xbf, 0xf2, 0x69, 0x48, 0xdf, 0x60, 0xa4,
    0x73, 0xe0, 0x8a, 0x38, 0xc0, 0x20, 0x92, 0x46, 0xea, 0xa7, 0x6d, 0x6f,
    0x42, 0x9d, 0x0d, 0x61, 0xde, 0xac, 0x05, 0x4a, 0x63, 0xc3, 0x88, 0x0b,
    0x03, 0x00, 0x00, 0x00, 0x04, 0x00, 0x00, 0x00, 0x0c, 0x00, 0x00, 0x00,
    0x52, 0x41, 0x44, 0x49, 0x4d, 0x49, 0x44, 0x50, 0x52, 0x4f, 0x4f, 0x54,
    0x40, 0x42, 0x0f, 0x00, 0x41, 0xe2, 0xa5, 0x07, 0x31, 0xaf, 0x05, 0x00,
    0x65, 0xb7, 0x09, 0xd5, 0x18, 0xbd, 0xab, 0xbf, 0x97, 0xa9, 0x26, 0x45,
    0xdf, 0xfe, 0xec, 0x34, 0x11, 0xc0, 0x32, 0x45, 0x26, 0x25, 0xb0, 0x7c,
    0xbd, 0x19, 0x7e, 0x12, 0xed, 0xe0, 0x16, 0x5b, 0x58, 0x9d, 0x02, 0x2f,
    0x61, 0x30, 0xb4, 0xd9, 0x1d, 0x04, 0x02, 0x0f, 0x2d, 0x18, 0xed, 0x06,
    0x7f, 0x65, 0xe9, 0x6a, 0xdb, 0xf3, 0x16, 0x1b, 0x74, 0xb3, 0x30, 0x4a,
    0x7d, 0xb3, 0x5e, 0xdc, 0x02, 0x00, 0x00, 0x00, 0x40, 0x00, 0x00, 0x00,
    0x53, 0x49, 0x47, 0x00, 0x44, 0x45, 0x4c, 0x45, 0x82, 0xbb, 0xc4, 0x82,
    0x6e, 0x53, 0xe6, 0x2d, 0xe0, 0xd0, 0x6d, 0x6d, 0x4e, 0x7a, 0xe1, 0xe0,
    0xf7, 0x18, 0xa8, 0x22, 0x94, 0x49, 0xd0, 0xbf, 0xcc, 0xe6, 0x51, 0xf6,
    0x75, 0xa9, 0x6e, 0x39, 0x9c, 0x47, 0x00, 0xed, 0xd9, 0xd1, 0xdb, 0x63,
    0x1a, 0xbc, 0xe5, 0xf3, 0x0f, 0xd7, 0x3c, 0xe1, 0xba, 0x55, 0xc5, 0x8d,
    0x2d, 0x43, 0x33, 0x43, 0x4a, 0x52, 0x1f, 0xf0, 0x1d, 0x04, 0x89, 0x0e,
    0x03, 0x00, 0x00, 0x00, 0x20, 0x00, 0x00, 0x00, 0x28, 0x00, 0x00, 0x00,
    0x50, 0x55, 0x42, 0x4b, 0x4d, 0x49, 0x4e, 0x54, 0x4d, 0x41, 0x58, 0x54,
    0xe7, 0xf1, 0x62, 0xa1, 0x0b, 0xec, 0x55, 0x9a, 0xfe, 0xa1, 0x95, 0xe4,
    0xdc, 0xe8, 0x4b, 0x69, 0x56, 0x8d, 0x5d, 0x2c, 0xb0, 0x96, 0x3e, 0xb4,
    0x46, 0xc0, 0x68, 0x5e, 0x2b, 0x17, 0xf2, 0xf0, 0x00, 0xc0, 0x29, 0xf7,
    0x3d, 0x54, 0x05, 0x00, 0x00, 0x40, 0x1e, 0x18, 0x24, 0x0a, 0x06, 0x00,
    0x01, 0x00, 0x00, 0x00,
];
const MISSING_CERT_RESPONSE: [u8; 96] = [
    0x02, 0x00, 0x00, 0x00, 0x40, 0x00, 0x00, 0x00, 0x53, 0x49, 0x47, 0x00,
    0x53, 0x52, 0x45, 0x50, 0x00, 0x00, 0x00, 0x00, 0x00, 0x00, 0x00, 0x00,
    0x00, 0x00, 0x00, 0x00, 0x00, 0x00, 0x00, 0x00, 0x00, 0x00, 0x00, 0x00,
    0x00, 0x00, 0x00, 0x00, 0x00, 0x00, 0x00, 0x00, 0x00, 0x00, 0x00, 0x00,
    0x00, 0x00, 0x00, 0x00, 0x00, 0x00, 0x00, 0x00, 0x00, 0x00, 0x00, 0x00,
    0x00, 0x00, 0x00, 0x00, 0x00, 0x00, 0x00, 0x00, 0x00, 0x00, 0x00, 0x00,
    0x00, 0x00, 0x00, 0x00, 0x00, 0x00, 0x00, 0x00, 0x01, 0x00, 0x00, 0x00,
    0x4d, 0x49, 0x44, 0x50, 0x00, 0x00, 0x00, 0x00, 0x00, 0x00, 0x00, 0x00,
];

const MIDPOINT: u64 = 1_600_000_000_123_456;
const RADIUS: u32 = 1_000_000;

fn in_buffer(response: &[u8]) -> Vec<u8> {
    let mut buf = vec![0u8; 4096];
    buf[..response.len()].copy_from_slice(response);
    buf
}

#[test]
fn classic_response_verifies_with_key() {
    let buf = in_buffer(&CLASSIC_RESPONSE);
    let r = process_response(
        Version::Classic,
        Some(LONG_TERM_PUBLIC_KEY.to_vec()),
        vec![0x5a; 64],
        &buf,
        CLASSIC_RESPONSE.len(),
    );
    assert_eq!(r, Ok((ParsedResponse { verified: true, midpoint: MIDPOINT, radius: RADIUS }, 1)));
}

#[test]
fn classic_response_without_key_is_not_verified() {
    let buf = in_buffer(&CLASSIC_RESPONSE);
    let r = process_response(Version::Classic, None, vec![0u8; 64], &buf, CLASSIC_RESPONSE.len());
    assert_eq!(r, Ok((ParsedResponse { verified: false, midpoint: MIDPOINT, radius: RADIUS }, 1)));
}

#[test]
fn rfc_response_verifies_with_key() {
    let buf = in_buffer(&RFC_RESPONSE);
    let r = process_response(
        Version::Rfc,
        Some(LONG_TERM_PUBLIC_KEY.to_vec()),
        vec![0xa5; 32],
        &buf,
        RFC_RESPONSE.len(),
    );
    assert_eq!(r, Ok((ParsedResponse { verified: true, midpoint: MIDPOINT, radius: RADIUS }, 0)));
}

#[test]
fn wrong_key_fails_delegation_check() {
    let buf = in_buffer(&CLASSIC_RESPONSE);
    let r = process_response(Version::Classic, Some(vec![7u8; 32]), vec![0x5a; 64], &buf, CLASSIC_RESPONSE.len());
    assert_eq!(r, Err(Error::InvalidDeleSignature));
}

#[test]
fn tampered_signed_response_fails() {
    let buf = in_buffer(&TAMPERED_RESPONSE);
    let r = process_response(
        Version::Classic,
        Some(LONG_TERM_PUBLIC_KEY.to_vec()),
        vec![0x5a; 64],
        &buf,
        TAMPERED_RESPONSE.len(),
    );
    assert_eq!(r, Err(Error::InvalidSrepSignature));
}

#[test]
fn other_nonce_is_not_in_tree() {
    let buf = in_buffer(&CLASSIC_RESPONSE);
    let r = process_response(
        Version::Classic,
        Some(LONG_TERM_PUBLIC_KEY.to_vec()),
        vec![0x5b; 64],
        &buf,
        CLASSIC_RESPONSE.len(),
    );
    assert_eq!(r, Err(Error::NonceNotInTree));
}

#[test]
fn midpoint_outside_delegation_fails() {
    let late = in_buffer(&LATE_RESPONSE);
    let r = process_response(
        Version::Classic,
        Some(LONG_TERM_PUBLIC_KEY.to_vec()),
        vec![0x5a; 64],
        &late,
        LATE_RESPONSE.len(),
    );
    assert_eq!(r, Err(Error::MidpointAfterDelegation));
    let early = in_buffer(&EARLY_RESPONSE);
    let r = process_response(
        Version::Classic,
        Some(LONG_TERM_PUBLIC_KEY.to_vec()),
        vec![0x5a; 64],
        &early,
        EARLY_RESPONSE.len(),
    );
    assert_eq!(r, Err(Error::MidpointBeforeDelegation));
}

#[test]
fn response_without_certificate_is_refused() {
    let msg = receive_response(Version::Classic, &MISSING_CERT_RESPONSE, MISSING_CERT_RESPONSE.len());
    let r = ResponseHandler::try_new(Version::Classic, None, msg, vec![0u8; 64]);
    assert_eq!(r.err(), Some(Error::MissingTag(Tag::CERT)));
}

#[test]
fn handler_reads_index_and_time() {
    let msg = receive_response(Version::Classic, &CLASSIC_RESPONSE, CLASSIC_RESPONSE.len());
    let handler = ResponseHandler::new(Version::Classic, None, msg, vec![0x5a; 64]);
    assert_eq!(u32_field(handler.msg(), Tag::INDX), Ok(1));
    assert_eq!(u32_field(handler.msg(), Tag::NONC), Err(Error::MissingTag(Tag::NONC)));
    assert_eq!(
        handler.extract_time(),
        ParsedResponse { verified: false, midpoint: MIDPOINT, radius: RADIUS }
    );
    assert_eq!(
        handler.try_extract_time(),
        Ok(ParsedResponse { verified: false, midpoint: MIDPOINT, radius: RADIUS })
    );
    assert_eq!(handler.try_validate_merkle(), Ok(()));
    handler.validate_merkle();
}

#[test]
fn checks_pass_on_a_signed_response() {
    let msg = receive_response(Version::Classic, &CLASSIC_RESPONSE, CLASSIC_RESPONSE.len());
    let handler =
        ResponseHandler::new(Version::Classic, Some(LONG_TERM_PUBLIC_KEY.to_vec()), msg, vec![0x5a; 64]);
    assert_eq!(handler.try_validate_dele(), Ok(()));
    assert_eq!(handler.try_validate_srep(), Ok(()));
    assert_eq!(handler.try_validate_midpoint(MIDPOINT), Ok(()));
    assert_eq!(handler.try_validate_midpoint(1_500_000_000_000_000), Ok(()));
    assert_eq!(handler.try_validate_midpoint(1_700_000_000_000_000), Ok(()));
    assert_eq!(
        handler.try_validate_midpoint(1_499_999_999_999_999),
        Err(Error::MidpointBeforeDelegation)
    );
    assert_eq!(
        handler.try_validate_midpoint(1_700_000_000_000_001),
        Err(Error::MidpointAfterDelegation)
    );
    handler.validate_dele();
    handler.validate_srep();
    handler.validate_midpoint(MIDPOINT);
    assert_eq!(
        handler.extract_time(),
        ParsedResponse { verified: true, midpoint: MIDPOINT, radius: RADIUS }
    );
}

#[test]
fn other_nonce_fails_merkle_check() {
    let msg = receive_response(Version::Classic, &CLASSIC_RESPONSE, CLASSIC_RESPONSE.len());
    let handler = ResponseHandler::new(Version::Classic, None, msg, vec![0x5b; 64]);
    assert_eq!(handler.try_validate_merkle(), Err(Error::NonceNotInTree));
}

#[test]
fn merkle_roots_match_reference_hashes() {
    let nonce = [0x5au8; 64];
    let tree = MerkleTree::new_sha512();
    assert_eq!(tree.root_from_paths(0, &nonce, &[]), CLASSIC_LEAF.to_vec());
    assert_eq!(tree.root_from_paths(1, &nonce, &CLASSIC_SIBLING), CLASSIC_ROOT.to_vec());
    let rfc_tree = MerkleTree::new_sha512_256();
    assert_eq!(rfc_tree.root_from_paths(0, &[0xa5u8; 32], &[]), RFC_LEAF.to_vec());
}

#[test]
fn public_key_text_is_hex_or_base64() {
    let hex = "79b5562e8fe654f94078b112e8a98ba7901f853ae695bed7e0e3910bad049664";
    assert_eq!(parse_public_key(hex.as_bytes()), Some(LONG_TERM_PUBLIC_KEY.to_vec()));
    let b64 = "ebVWLo/mVPlAeLES6KmLp5AfhTrmlb7X4OORC60ElmQ=";
    assert_eq!(parse_public_key(b64.as_bytes()), Some(LONG_TERM_PUBLIC_KEY.to_vec()));
    assert_eq!(parse_public_key(b"AQID"), Some(vec![1, 2, 3]));
    assert_eq!(parse_public_key(b"0102FF"), Some(vec![1, 2, 255]));
    assert_eq!(parse_public_key(b"!!"), None);
}

#[test]
fn short_integer_field_is_refused() {
    let mut msg = roughenough_client::message::RtMessage::new();
    msg.add_field(Tag::INDX, &[1, 0]).unwrap();
    let map = msg.into_hash_map();
    assert_eq!(u32_field(&map, Tag::INDX), Err(Error::ValueTooShort(Tag::INDX)));
    assert_eq!(
        roughenough_client::response::u64_field(&map, Tag::INDX),
        Err(Error::ValueTooShort(Tag::INDX))
    );
}
