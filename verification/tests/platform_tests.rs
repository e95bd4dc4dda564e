use axon::platform::{PlatformConstraints, PlatformValidator};

const MESSAGE_LOOP: &str = r#"
            #include <windows.h>
            int WINAPI wWinMain(HINSTANCE hInstance, HINSTANCE hPrevInstance, LPWSTR lpCmdLine, int nCmdShow) {
                MSG msg;
                while(GetMessage(&msg, NULL, 0, 0)) {
                    TranslateMessage(&msg);
                    DispatchMessage(&msg);
                }
                return 0;
            }
"#;

#[test]
fn test_validate_source_code_main_forbidden() {
    let val = PlatformValidator::new();
    let code1 = "int main(int argc, char** argv) { return 0; }";
    let res = val.validate_source_code("src/main.c", code1, false);
    assert!(res.is_err());
    assert!(res.unwrap_err().contains("PLATFORM_CONTRACT_VIOLATION: Forbidden entry point 'main'"));

    let code2 = "void main() {}";
    let res2 = val.validate_source_code("src/main.c", code2, false);
    assert!(res2.is_err());
}

#[test]
fn test_validate_source_code_entrypoint_missing() {
    let val = PlatformValidator::new();
    let code = "void some_helper_function() {}";
    let res = val.validate_source_code("src/main.c", code, true);
    assert!(res.is_err());
    assert!(res.unwrap_err().contains("lacks the mandatory Win32 GUI entrypoint"));
}

#[test]
fn test_validate_source_code_message_loop_missing() {
    let val = PlatformValidator::new();
    let code = r#"
            #include <windows.h>
            int WINAPI wWinMain(HINSTANCE hInstance, HINSTANCE hPrevInstance, LPWSTR lpCmdLine, int nCmdShow) {
                // Fake loop
                while(1) {}
            }
        "#;
    let res = val.validate_source_code("src/main.c", code, true);
    assert!(res.is_err());
    assert!(res.unwrap_err().contains("lacks required Win32 API call"));
}

#[test]
fn test_validate_source_code_wndproc_defwndproc_missing() {
    let val = PlatformValidator::new();
    let code = format!("{}{}", MESSAGE_LOOP, r#"
            LRESULT CALLBACK WndProc(HWND hWnd, UINT message, WPARAM wParam, LPARAM lParam) {
                switch(message) {
                    case WM_PAINT:
                        break;
                }
                return 0; // DefWndProc missing!
            }
        "#);
    let res = val.validate_source_code("src/main.c", &code, true);
    assert!(res.is_err());
    assert!(res.unwrap_err().contains("lacks mandatory callback chain delegation to 'DefWindowProc'"));
}

#[test]
fn test_validate_source_code_valid() {
    let val = PlatformValidator::new();
    let code = format!("{}{}", MESSAGE_LOOP, r#"
            LRESULT CALLBACK WndProc(HWND hWnd, UINT message, WPARAM wParam, LPARAM lParam) {
                switch(message) {
                    case WM_PAINT: {
                        PAINTSTRUCT ps;
                        HDC hdc = BeginPaint(hWnd, &ps);
                        EndPaint(hWnd, &ps);
                        break;
                    }
                    default:
                        return DefWindowProc(hWnd, message, wParam, lParam);
                }
                return 0;
            }
        "#);
    let res = val.validate_source_code("src/main.c", &code, true);
    assert!(res.is_ok(), "Error: {:?}", res);
}

#[test]
fn test_validate_source_code_rendering_outside_wm_paint() {
    let val = PlatformValidator::new();
    let code = format!("{}{}", MESSAGE_LOOP, r#"
            LRESULT CALLBACK WndProc(HWND hWnd, UINT message, WPARAM wParam, LPARAM lParam) {
                switch(message) {
                    case WM_CREATE: {
                        PAINTSTRUCT ps;
                        HDC hdc = BeginPaint(hWnd, &ps); // Wrong place!
                        EndPaint(hWnd, &ps);
                        break;
                    }
                    case WM_PAINT:
                        break;
                    default:
                        return DefWindowProc(hWnd, message, wParam, lParam);
                }
                return 0;
            }
        "#);
    let res = val.validate_source_code("src/main.c", &code, true);
    assert!(res.is_err());
    assert!(res.unwrap_err().contains("Continuous rendering or rendering outside WM_PAINT is forbidden"));
}

#[test]
fn test_validate_source_code_system_library_forbidden() {
    let val = PlatformValidator::new();
    let res = val.validate_source_code("src/user32.c", "void foo() {}", false);
    assert!(res.is_err());
    assert!(res.unwrap_err().contains("cannot be generated as a project-owned module"));

    let res2 = val.validate_source_code("gdi.c", "void foo() {}", false);
    assert!(res2.is_err());
    assert!(res2.unwrap_err().contains("cannot be generated as a project-owned module"));

    let res_api = val.validate_source_code("include/win32_api.h", "void foo() {}", false);
    assert!(res_api.is_err());
    assert!(res_api.unwrap_err().contains("cannot be generated as a project-owned module"));

    let res3 = val.validate_source_code("src/normal.c", "void foo() {}", false);
    assert!(res3.is_ok());
}

#[test]
fn test_validate_source_code_win32_header_ownership() {
    let val = PlatformValidator::new();
    let code_no_h = "HWND main_window;";
    let res1 = val.validate_source_code("src/main.c", code_no_h, false);
    assert!(res1.is_err());
    assert!(res1
        .unwrap_err()
        .contains("Win32 type/API usage detected in src/main.c but '#include <windows.h>' is missing"));

    let code_with_h = "#include <windows.h>\nHWND main_window;";
    let res2 = val.validate_source_code("src/main.c", code_with_h, false);
    assert!(res2.is_ok());
}

#[test]
fn test_validate_source_code_fake_win32_detection() {
    let val = PlatformValidator::new();
    let code_fake_typedef = "#include <windows.h>\ntypedef void* HWND;";
    let res1 = val.validate_source_code("src/main.c", code_fake_typedef, false);
    assert!(res1.is_err());
    assert!(res1.unwrap_err().contains("Fake Win32 type definition or API replacement detected"));

    let code_fake_fn = "#include <windows.h>\nint CreateWindow(int x) { return 0; }";
    let res2 = val.validate_source_code("src/main.c", code_fake_fn, false);
    assert!(res2.is_err());
    assert!(res2.unwrap_err().contains("Fake Win32 type definition or API replacement detected"));

    let code_fake_createwindowex = "#include <windows.h>\nHWND WINAPI CreateWindowEx(DWORD dwExStyle, LPCSTR lpClassName, LPCSTR lpWindowName, DWORD dwStyle, int X, int Y, int nWidth, int nHeight, HWND hWndParent, HMENU hMenu, HINSTANCE hInstance, LPVOID lpParam);";
    let res3 = val.validate_source_code("src/main.c", code_fake_createwindowex, false);
    assert!(res3.is_err());
    assert!(res3.unwrap_err().contains("Fake Win32 type definition or API replacement detected"));

    let code_fake_dispatch = "#include <windows.h>\nLRESULT CALLBACK DispatchMessage(const MSG *lpMsg);";
    let res4 = val.validate_source_code("src/main.c", code_fake_dispatch, false);
    assert!(res4.is_err());
    assert!(res4.unwrap_err().contains("Fake Win32 type definition or API replacement detected"));
}

fn mock_binary() -> Vec<u8> {
    let mut binary = vec![0u8; 500];
    binary[0] = b'M';
    binary[1] = b'Z';
    binary[0x3c] = 100;
    binary[100] = b'P';
    binary[101] = b'E';
    binary[124] = 0x0b;
    binary[125] = 0x01;
    binary[192] = 2;
    binary
}

#[test]
fn test_validate_binary_subsystem_invalid() {
    let val = PlatformValidator::new();
    let res1 = val.check_binary_subsystem(&vec![0u8; 10]);
    assert!(res1.is_err());
    assert!(res1.unwrap_err().contains("too short"));

    let res2 = val.check_binary_subsystem(&vec![0u8; 100]);
    assert!(res2.is_err());
    assert!(res2.unwrap_err().contains("Ensure compilation targets MinGW/Windows"));
}

#[test]
fn test_validate_binary_subsystem_valid_and_linkage_checks() {
    let val = PlatformValidator::new();
    let binary = mock_binary();
    let res = val.check_binary_subsystem(&binary);
    assert!(res.is_err());
    assert!(res.unwrap_err().contains("lacks linkage to 'user32.dll'"));

    let mut binary_half = binary.clone();
    binary_half.extend_from_slice(b"user32.dll");
    let res_half = val.check_binary_subsystem(&binary_half);
    assert!(res_half.is_err());
    assert!(res_half.unwrap_err().contains("lacks linkage to 'gdi32.dll'"));

    let mut binary_full = binary.clone();
    binary_full.extend_from_slice(b"user32.dll");
    binary_full.extend_from_slice(b"gdi32.dll");
    let res_full = val.check_binary_subsystem(&binary_full);
    assert!(res_full.is_ok(), "Error: {:?}", res_full);
}

#[test]
fn binary_linkage_is_found_in_any_case() {
    let val = PlatformValidator::new();
    let mut binary = mock_binary();
    binary.extend_from_slice(b"USER32.DLL");
    binary.extend_from_slice(b"Gdi32.Dll");
    assert!(val.check_binary_subsystem(&binary).is_ok());
}

#[test]
fn binary_console_subsystem_is_reported_with_its_number() {
    let val = PlatformValidator::new();
    let mut binary = mock_binary();
    binary[192] = 3;
    let err = val.check_binary_subsystem(&binary).unwrap_err();
    assert_eq!(
        err,
        "PLATFORM_CONTRACT_VIOLATION: Subsystem is not WINDOWS_GUI (expected 2, got 3). Binary will open a Console Window."
    );
}

#[test]
fn binary_errors_for_each_broken_header() {
    let val = PlatformValidator::new();
    let mut far = vec![0u8; 64];
    far[0x3c] = 200;
    assert_eq!(val.check_binary_subsystem(&far).unwrap_err(), "Invalid PE binary offset");

    let mut short_opt = mock_binary();
    short_opt.truncate(110);
    assert_eq!(val.check_binary_subsystem(&short_opt).unwrap_err(), "Invalid PE optional header");

    let mut bad_magic = mock_binary();
    bad_magic[124] = 0x07;
    assert_eq!(val.check_binary_subsystem(&bad_magic).unwrap_err(), "Unknown PE optional header magic");

    let mut short_sub = mock_binary();
    short_sub.truncate(150);
    assert_eq!(val.check_binary_subsystem(&short_sub).unwrap_err(), "Invalid PE subsystem offset");
}

fn constraints(platform: Option<&str>, language: &str) -> PlatformConstraints {
    PlatformConstraints {
        platform: platform.map(|p| p.to_string()),
        runtime_model: None,
        language: language.to_string(),
    }
}

#[test]
fn spec_for_win32_requires_c_or_cpp() {
    let val = PlatformValidator::new();
    let err = val.validate_spec("A calculator.", &constraints(Some("win32"), "Rust")).unwrap_err();
    assert_eq!(
        err,
        "PLATFORM_CONTRACT_VIOLATION: Win32 GUI applications require C or C++ programming language (expected 'c' or 'cpp', got 'Rust')."
    );
    assert!(val.validate_spec("A calculator.", &constraints(Some("win32"), "C++")).is_ok());
    assert!(val.validate_spec("A calculator.", &constraints(None, "rust")).is_ok());
}

#[test]
fn spec_mentioning_win32_is_checked_for_forbidden_libraries() {
    let val = PlatformValidator::new();
    let pattern = val.contract.forbidden_patterns[0].clone();
    let text = format!("A Win32 tool built with {}.", pattern.to_uppercase());
    let err = val.validate_spec(&text, &constraints(None, "c")).unwrap_err();
    assert!(err.contains(&format!("pattern '{}'", pattern)));
}
